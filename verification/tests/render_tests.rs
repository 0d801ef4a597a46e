use oxmon::render::default_num_buckets;
use oxmon::render::render_timeline;
use oxmon::render::render_timeline_bar;
use oxmon::types::TimelineBucketState;

#[test]
fn test_default_num_buckets() {
    assert_eq!(default_num_buckets(), 20);
}

#[test]
fn test_render_timeline_characters() {
    let buckets = vec![
        TimelineBucketState::Online,
        TimelineBucketState::Offline,
        TimelineBucketState::NoData,
    ];
    assert_eq!(render_timeline(&buckets, 10), "-_\u{b7}");
}

#[test]
fn test_render_timeline_truncates_to_width() {
    let buckets = vec![
        TimelineBucketState::Online,
        TimelineBucketState::Offline,
        TimelineBucketState::NoData,
    ];
    assert_eq!(render_timeline(&buckets, 2), "-_");
    assert_eq!(render_timeline(&buckets, 0), "");
}

#[test]
fn test_render_timeline_bar_html() {
    let buckets = vec![TimelineBucketState::Online, TimelineBucketState::NoData];
    let expected = "<span class=\"timeline-segment online\"></span>\
                    <span class=\"timeline-segment nodata\"></span>";
    assert_eq!(render_timeline_bar(&buckets), expected);
}

#[test]
fn test_render_timeline_bar_empty() {
    let buckets: Vec<TimelineBucketState> = Vec::new();
    assert_eq!(render_timeline_bar(&buckets), "");
}
