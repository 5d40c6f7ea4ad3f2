//! Escaping and the decided parts of the HTML board: zone choices, footer, payload values.

use market_time::html::{
    epoch_millis, footer_line, json_escape, normalized_zones, uncertainty_words, zone_options,
    DatasetRevisionFooter, HtmlOptions,
};
use market_time::board::{ClockDiscipline, NowMarker};
use market_time::instant::UtcInstant;
use market_time::page::page_markup;
use market_time::svg::{escape, SvgOptions};
use market_time::uncertainty::Uncertainty;

fn strings(items: &[&str]) -> Vec<String> {
    items.iter().map(|item| item.to_string()).collect()
}

#[test]
fn a_hostile_name_is_escaped_for_markup_and_for_the_payload() {
    let name = "</text><script>x</script>\"quote";
    let markup = escape(name);
    assert!(!markup.contains('<') && !markup.contains('>'));
    assert!(markup.starts_with("&lt;/text&gt;&lt;script&gt;"), "{markup}");
    assert!(markup.ends_with("&quot;quote"), "{markup}");

    let payload = json_escape(name);
    assert_eq!(payload, "\\u003c/text\\u003e\\u003cscript\\u003ex\\u003c/script\\u003e\\\"quote");
    assert!(!payload.contains("</script>"));
}

#[test]
fn control_characters_become_unicode_escapes() {
    assert_eq!(json_escape("a\u{1}b\nc\td\\e'f&g"), "a\\u0001b\\nc\\td\\\\e\\u0027f\\u0026g");
    assert_eq!(json_escape("\u{1f}"), "\\u001f");
    assert_eq!(escape("Tom & Jerry's"), "Tom &amp; Jerry&apos;s");
}

#[test]
fn a_none_uncertainty_is_said_in_words_and_never_as_exact() {
    assert_eq!(uncertainty_words(None), "no schedule known for this stretch");
    assert_eq!(uncertainty_words(Some(&Uncertainty::Exact)), "exact");
    assert_eq!(
        uncertainty_words(Some(&Uncertainty::ProcessStart { process: "the opening call".to_string() })),
        "scheduled start of the opening call; spread not published"
    );
}

#[test]
fn the_axis_zone_and_utc_are_always_choices_and_nothing_repeats() {
    let zones = normalized_zones(&strings(&["Asia/Shanghai", "UTC", "Asia/Shanghai"]), "Europe/London");
    assert_eq!(zones, strings(&["Asia/Shanghai", "UTC", "Europe/London"]));
    let zones = normalized_zones(&Vec::new(), "UTC");
    assert_eq!(zones, strings(&["UTC"]));
}

#[test]
fn the_selector_marks_the_default_zone() {
    let options = zone_options(&strings(&["UTC", "Asia/Shanghai"]), "Asia/Shanghai");
    assert_eq!(
        options,
        "<option value=\"UTC\">UTC</option><option value=\"Asia/Shanghai\" selected>Asia/Shanghai</option>"
    );
}

#[test]
fn the_footer_names_each_revision_and_its_tzdb() {
    assert_eq!(footer_line(&Vec::new()), "no dataset revision was recorded for this render");
    let revisions = vec![
        DatasetRevisionFooter { id: "r1".to_string(), iana_tzdb_version: Some("2026e".to_string()) },
        DatasetRevisionFooter { id: "r2".to_string(), iana_tzdb_version: None },
    ];
    assert_eq!(
        footer_line(&revisions),
        "rendered from dataset revision(s): r1 (IANA tzdb 2026e); r2 (IANA tzdb not recorded)"
    );
}

#[test]
fn epoch_millis_count_toward_zero() {
    assert_eq!(epoch_millis(UtcInstant::from_nanos_since_unix_epoch(1_785_376_800_123_456_789)), "1785376800123");
    assert_eq!(epoch_millis(UtcInstant::from_nanos_since_unix_epoch(-1_500_000)), "-1");
    assert_eq!(epoch_millis(UtcInstant::from_nanos_since_unix_epoch(-999_999)), "0");
    assert_eq!(epoch_millis(UtcInstant::from_nanos_since_unix_epoch(0)), "0");
}

#[test]
fn the_default_layout_is_the_published_one() {
    let layout = SvgOptions::default();
    assert_eq!((layout.width, layout.row_height, layout.label_width, layout.status_width), (1180, 34, 200, 190));
    assert!(layout.show_sources);
    let options = HtmlOptions::default();
    assert_eq!(options.svg, layout);
    assert!(options.zones.is_empty() && options.dataset_revisions.is_empty());
}

#[test]
fn uncertainties_are_written_in_their_units() {
    assert_eq!(Uncertainty::seconds(60).describe(), "published to 1min");
    assert_eq!(Uncertainty::seconds(90).describe(), "published to 90s");
    assert_eq!(
        Uncertainty::PublishedGranularity { nanos: 500 }.describe(),
        "published to 500ns"
    );
    assert_eq!(
        Uncertainty::PublishedBound { nanos: 15_000_000_000, published_as: "±15 seconds".to_string() }
            .describe(),
        "venue-published bound 15s (±15 seconds)"
    );
    assert_eq!(Uncertainty::PublishedGranularity { nanos: 0 }.describe(), "published to 0s");
    assert_eq!(Uncertainty::PublishedGranularity { nanos: -120_000_000_000 }.describe(), "published to -2min");
}

#[test]
fn the_page_carries_the_board_the_payload_and_a_live_clock_only_for_a_read_clock() {
    let revisions = vec![DatasetRevisionFooter { id: "r1".to_string(), iana_tzdb_version: None }];
    let zones = strings(&["Asia/Tokyo"]);
    let read = NowMarker {
        instant: UtcInstant::from_nanos_since_unix_epoch(0),
        discipline: ClockDiscipline::Unmeasured { source: "host".to_string() },
    };
    let given = NowMarker {
        instant: UtcInstant::from_nanos_since_unix_epoch(0),
        discipline: ClockDiscipline::Given { source: "flag".to_string() },
    };
    let page = page_markup(&zones, "Europe/London", Some(&read), "<svg/>", "{\"k\":1}", &revisions);
    assert!(page.starts_with("<!doctype html>\n"), "{page}");
    assert!(page.ends_with("</html>\n"));
    assert!(page.contains("<div class=\"mt-board\">\n<svg/>\n</div>"));
    assert!(page.contains("<script type=\"application/json\" id=\"mt-payload\">{\"k\":1}</script>"));
    assert!(page.contains("<option value=\"Europe/London\" selected>"), "{page}");
    assert!(page.contains("<p id=\"mt-live-clock\">"));
    assert!(page.contains(
        "<footer class=\"mt-footer\">rendered from dataset revision(s): r1 (IANA tzdb not recorded)</footer>"
    ));

    let fixed = page_markup(&zones, "Europe/London", Some(&given), "<svg/>", "{}", &revisions);
    assert!(!fixed.contains("mt-live-clock\">"));
    let none = page_markup(&zones, "UTC", None, "<svg/>", "{}", &revisions);
    assert!(!none.contains("mt-live-clock\">"));
}
