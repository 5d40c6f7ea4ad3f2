//! The interactive board page: the drawn board, the zone selector, the evidence panel and
//! the footer around it, with its style and script inline, so the page makes no network
//! request of its own.

use crate::board::{ClockDiscipline, NowMarker};
use crate::html::{footer_line, footer_text, normalized_zones, string_texts, zone_choices, zone_options, zone_options_text, DatasetRevisionFooter};
use crate::svg::{escape, markup_text};
use vstd::prelude::*;

verus! {

/// What the evidence panel shows before a segment is chosen.
pub const EVIDENCE_PLACEHOLDER: &'static str = "<p class=\"mt-evidence-placeholder\">Hover or focus a segment on the board for its evidence.</p>";

/// The page's own style: theme-aware chrome around the fixed dark board.
pub const PAGE_STYLE: &'static str = r#"
:root {
  color-scheme: dark light;
  --mt-bg: #0d1117;
  --mt-panel: #161b22;
  --mt-border: #30363d;
  --mt-text: #c9d1d9;
  --mt-title: #e6edf3;
  --mt-muted: #8b949e;
  --mt-warn: #f78166;
  --mt-link: #58a6ff;
}
@media (prefers-color-scheme: light) {
  :root {
    --mt-bg: #f6f8fa;
    --mt-panel: #ffffff;
    --mt-border: #d0d7de;
    --mt-text: #1f2328;
    --mt-title: #0b0f14;
    --mt-muted: #57606a;
    --mt-warn: #cf222e;
    --mt-link: #0969da;
  }
}
* { box-sizing: border-box; }
body {
  margin: 0;
  padding: 24px;
  max-width: 1240px;
  margin-inline: auto;
  background: var(--mt-bg);
  color: var(--mt-text);
  font-family: ui-sans-serif, -apple-system, "Segoe UI", system-ui, sans-serif;
}
.mt-header {
  display: flex;
  align-items: baseline;
  justify-content: space-between;
  flex-wrap: wrap;
  gap: 12px;
  margin-bottom: 12px;
}
.mt-header h1 { font-size: 18px; color: var(--mt-title); margin: 0; }
.mt-controls { display: flex; align-items: center; gap: 8px; font-size: 13px; color: var(--mt-muted); }
.mt-controls select {
  background: var(--mt-panel);
  color: var(--mt-text);
  border: 1px solid var(--mt-border);
  border-radius: 4px;
  padding: 2px 6px;
}
.mt-main { display: flex; flex-wrap: wrap; gap: 16px; align-items: flex-start; }
.mt-board { flex: 1 1 640px; min-width: 0; max-width: 100%; overflow-x: auto; border-radius: 6px; }
.mt-board svg { max-width: 100%; height: auto; display: block; }
#mt-evidence {
  flex: 0 0 320px;
  max-width: 100%;
  background: var(--mt-panel);
  border: 1px solid var(--mt-border);
  border-radius: 6px;
  padding: 12px 14px;
  font-size: 13px;
  line-height: 1.5;
  min-height: 120px;
  overflow-wrap: anywhere;
}
#mt-evidence p { margin: 0 0 8px; }
#mt-evidence .mt-evidence-title { font-weight: 600; color: var(--mt-title); }
#mt-evidence .mt-evidence-placeholder { color: var(--mt-muted); font-style: italic; }
.mt-sources { margin: 0 0 8px; padding-left: 18px; }
.mt-sources a { color: var(--mt-link); word-break: break-all; }
#mt-live-clock { margin: 12px 0 0; font-size: 12px; color: var(--mt-warn); }
.mt-footer {
  margin-top: 20px;
  font-size: 11px;
  color: var(--mt-muted);
  border-top: 1px solid var(--mt-border);
  padding-top: 10px;
}
[data-seg] { cursor: pointer; }
"#;

/// The page's one script: a lookup in the embedded payload for hover, a swap between
/// precomputed zone labels, and, only where the instant was read from a clock, a live
/// clock line moved by plain arithmetic on two epoch instants.
pub const PAGE_SCRIPT: &'static str = r##"(function () {
  "use strict";
  var payloadEl = document.getElementById("mt-payload");
  if (!payloadEl) { return; }
  var payload;
  try {
    payload = JSON.parse(payloadEl.textContent || "{}");
  } catch (error) {
    return;
  }

  var svgRoot = document.querySelector(".mt-board svg");
  var evidenceEl = document.getElementById("mt-evidence");
  var zoneSelect = document.getElementById("mt-zone-select");
  var state = { zone: payload.defaultZone, activeId: null };

  function escapeText(value) {
    var holder = document.createElement("div");
    holder.textContent = value === undefined || value === null ? "" : String(value);
    return holder.innerHTML;
  }

  function renderSources(sources) {
    if (!sources || sources.length === 0) { return ""; }
    var out = '<ul class="mt-sources">';
    for (var i = 0; i < sources.length; i += 1) {
      var source = sources[i];
      out += "<li><a href=\"" + escapeText(source.url) + "\" rel=\"noopener noreferrer\">"
        + escapeText(source.url) + "</a> — fetched " + escapeText(source.fetchedAt)
        + ", effective from " + escapeText(source.effectiveFrom);
      if (source.publisherLastChanged) {
        out += ", publisher last changed " + escapeText(source.publisherLastChanged);
      }
      out += "</li>";
    }
    out += "</ul>";
    return out;
  }

  function renderDetail(detail) {
    var stretch = detail.stretch ? detail.stretch[state.zone] : null;
    var html = '<p class="mt-evidence-title">' + escapeText(detail.label) + "</p>";
    if (detail.kind === "venue") {
      html += "<p>" + (detail.phase
        ? "phase: " + escapeText(String(detail.phase).replace(/_/g, " "))
        : "not known") + "</p>";
      if (detail.notKnownBecause) {
        html += "<p>" + escapeText(detail.notKnownBecause)
          + " — an unknown is not a closed market.</p>";
      }
    } else {
      html += "<p>state: " + escapeText(detail.state)
        + " (derived — not a venue's published schedule)</p>";
    }
    if (stretch) {
      html += "<p>stretch: " + escapeText(stretch.start) + " – " + escapeText(stretch.end)
        + " (" + escapeText(state.zone) + ")</p>";
    }
    if (detail.kind === "venue") {
      html += "<p>start uncertainty: " + escapeText(detail.startUncertainty || "not known") + "</p>";
      html += "<p>end uncertainty: " + escapeText(detail.endUncertainty || "not known") + "</p>";
    } else {
      html += "<p>uncertainty: " + escapeText(detail.uncertainty) + "</p>";
    }
    if (detail.derivedReasoning) {
      html += "<p>derived: " + escapeText(detail.derivedReasoning) + "</p>";
    }
    html += renderSources(detail.sources);
    if (detail.datasetRevisions && detail.datasetRevisions.length) {
      html += "<p>revisions: " + escapeText(detail.datasetRevisions.join(", ")) + "</p>";
    }
    return html;
  }

  function showDetail(id) {
    var detail = payload.segments ? payload.segments[id] : null;
    if (!detail || !evidenceEl) { return; }
    state.activeId = id;
    evidenceEl.innerHTML = renderDetail(detail);
  }

  function clearDetail() {
    state.activeId = null;
    if (evidenceEl) {
      evidenceEl.innerHTML = '<p class="mt-evidence-placeholder">Hover or focus a segment '
        + "on the board for its evidence.</p>";
    }
  }

  function segOf(node) {
    return node && node.closest ? node.closest("[data-seg]") : null;
  }

  if (svgRoot) {
    svgRoot.addEventListener("mouseover", function (event) {
      var target = segOf(event.target);
      if (target) { showDetail(target.getAttribute("data-seg")); }
    });
    svgRoot.addEventListener("mouseout", function (event) {
      var leaving = segOf(event.target);
      var entering = segOf(event.relatedTarget);
      if (leaving && !entering) { clearDetail(); }
    });
    svgRoot.addEventListener("focusin", function (event) {
      var target = segOf(event.target);
      if (target) { showDetail(target.getAttribute("data-seg")); }
    });
    svgRoot.addEventListener("focusout", function () { clearDetail(); });
  }

  function applyZone(zone) {
    state.zone = zone;
    var axisLabels = payload.axis ? payload.axis[zone] : null;
    if (axisLabels && svgRoot) {
      var ticks = svgRoot.querySelectorAll("[data-tick]");
      for (var i = 0; i < ticks.length; i += 1) {
        var index = Number(ticks[i].getAttribute("data-tick"));
        if (axisLabels[index] !== undefined) { ticks[i].textContent = axisLabels[index]; }
      }
    }
    var zoneLabelEl = svgRoot ? svgRoot.querySelector("#mt-axis-zone-label") : null;
    if (zoneLabelEl) { zoneLabelEl.textContent = "axis in " + zone; }
    var nowInfoEl = svgRoot ? svgRoot.querySelector("#mt-now-info") : null;
    if (nowInfoEl && payload.now && payload.now.present && payload.now.info
        && payload.now.info[zone] !== undefined) {
      nowInfoEl.textContent = payload.now.info[zone];
    }
    if (state.activeId) { showDetail(state.activeId); }
  }

  if (zoneSelect) {
    zoneSelect.addEventListener("change", function () { applyZone(zoneSelect.value); });
  }

  // The live clock: only when `now` came from an unmeasured or host-bound clock read —
  // never when it was supplied via `--at`. A supplied instant is a fact the page states;
  // the browser's own clock has no business moving it.
  var nowLine = document.getElementById("mt-now-line");
  var track = document.getElementById("mt-track");
  var liveClockEl = document.getElementById("mt-live-clock");
  if (payload.now && payload.now.present && !payload.now.supplied
      && nowLine && track && payload.interval) {
    var trackLeft = Number(track.getAttribute("x"));
    var trackSpan = Number(track.getAttribute("width"));
    var startMs = Number(payload.interval.startMs);
    var endMs = Number(payload.interval.endMs);
    var tick = function () {
      var now = Date.now();
      var fraction = (now - startMs) / (endMs - startMs);
      if (fraction < 0) { fraction = 0; }
      if (fraction > 1) { fraction = 1; }
      var x = trackLeft + trackSpan * fraction;
      nowLine.setAttribute("x1", String(x));
      nowLine.setAttribute("x2", String(x));
      if (liveClockEl) {
        liveClockEl.textContent = "browser clock — discipline unmeasured — "
          + new Date(now).toISOString();
      }
    };
    tick();
    setInterval(tick, 1000);
  }

  applyZone(state.zone);
})();"##;

/// Whether the page carries a live clock line: only when the instant shown was read from a
/// host clock, never when it was supplied.
pub open spec fn live_clock_shown(now: Option<NowMarker>) -> bool {
    match now {
        Some(marker) => !(marker.discipline is Given),
        None => false,
    }
}

/// The page: the head with its style, the zone selector with `axis_zone` chosen, the
/// drawn board, the evidence panel, the live clock line where it is shown, the footer
/// naming the revisions, and the payload and script.
pub open spec fn page_text(
    zones: Seq<Seq<char>>,
    axis_zone: Seq<char>,
    svg_markup: Seq<char>,
    live_clock: bool,
    revisions: Seq<DatasetRevisionFooter>,
    payload: Seq<char>,
) -> Seq<char> {
    "<!doctype html>\n<html lang=\"en\">\n<head>\n<meta charset=\"utf-8\">\n"@
        + "<meta name=\"viewport\" content=\"width=device-width, initial-scale=1\">\n"@
        + "<title>Mark Time — venue sessions</title>\n<style>\n"@ + PAGE_STYLE@
        + "\n</style>\n</head>\n<body>\n"@
        + "<header class=\"mt-header\">\n<h1>Mark Time — venue sessions</h1>\n"@
        + "<div class=\"mt-controls\">\n<label for=\"mt-zone-select\">axis zone</label>\n"@
        + "<select id=\"mt-zone-select\">"@ + zone_options_text(zones, axis_zone)
        + "</select>\n</div>\n</header>\n"@ + "<main class=\"mt-main\">\n<div class=\"mt-board\">\n"@
        + svg_markup + "\n</div>\n"@ + "<aside id=\"mt-evidence\" aria-live=\"polite\">\n"@
        + EVIDENCE_PLACEHOLDER@ + "\n</aside>\n</main>\n"@ + (if live_clock {
        "<p id=\"mt-live-clock\">browser clock — discipline unmeasured</p>\n"@
    } else {
        Seq::<char>::empty()
    }) + "<footer class=\"mt-footer\">"@ + markup_text(footer_text(revisions)) + "</footer>\n"@
        + "<script type=\"application/json\" id=\"mt-payload\">"@ + payload + "</script>\n<script>\n"@
        + PAGE_SCRIPT@ + "\n</script>\n</body>\n</html>\n"@
}

/// Assembles the page around the drawn board and the payload built for it. The zones on
/// offer are `requested_zones` with `axis_zone` and `UTC` always among them; the payload
/// is embedded as given, so the caller escapes it (see `json_escape`).
pub fn page_markup(
    requested_zones: &Vec<String>,
    axis_zone: &str,
    now: Option<&NowMarker>,
    svg_markup: &str,
    payload: &str,
    revisions: &Vec<DatasetRevisionFooter>,
) -> (r: String)
    ensures
        r@ == page_text(
            zone_choices(string_texts(requested_zones@), axis_zone@),
            axis_zone@,
            svg_markup@,
            live_clock_shown(
                match now {
                    Some(m) => Some(*m),
                    None => None,
                },
            ),
            revisions@,
            payload@,
        ),
{
    let zones = normalized_zones(requested_zones, axis_zone);
    let live_clock = match now {
        Some(marker) => match &marker.discipline {
            ClockDiscipline::Given { .. } => false,
            _ => true,
        },
        None => false,
    };
    let mut page = String::from_str("<!doctype html>\n<html lang=\"en\">\n<head>\n<meta charset=\"utf-8\">\n");
    page.append("<meta name=\"viewport\" content=\"width=device-width, initial-scale=1\">\n");
    page.append("<title>Mark Time — venue sessions</title>\n<style>\n");
    page.append(PAGE_STYLE);
    page.append("\n</style>\n</head>\n<body>\n");
    page.append("<header class=\"mt-header\">\n<h1>Mark Time — venue sessions</h1>\n");
    page.append("<div class=\"mt-controls\">\n<label for=\"mt-zone-select\">axis zone</label>\n");
    page.append("<select id=\"mt-zone-select\">");
    let options = zone_options(&zones, axis_zone);
    page.append(options.as_str());
    page.append("</select>\n</div>\n</header>\n");
    page.append("<main class=\"mt-main\">\n<div class=\"mt-board\">\n");
    page.append(svg_markup);
    page.append("\n</div>\n");
    page.append("<aside id=\"mt-evidence\" aria-live=\"polite\">\n");
    page.append(EVIDENCE_PLACEHOLDER);
    page.append("\n</aside>\n</main>\n");
    if live_clock {
        page.append("<p id=\"mt-live-clock\">browser clock — discipline unmeasured</p>\n");
    }
    page.append("<footer class=\"mt-footer\">");
    let footer = footer_line(revisions);
    let escaped = escape(footer.as_str());
    page.append(escaped.as_str());
    page.append("</footer>\n");
    page.append("<script type=\"application/json\" id=\"mt-payload\">");
    page.append(payload);
    page.append("</script>\n<script>\n");
    page.append(PAGE_SCRIPT);
    page.append("\n</script>\n</body>\n</html>\n");
    proof {
        assert(page@ =~= page_text(
            zone_choices(string_texts(requested_zones@), axis_zone@),
            axis_zone@,
            svg_markup@,
            live_clock,
            revisions@,
            payload@,
        ));
    }
    page
}

} // verus!
