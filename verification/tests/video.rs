use subfeed::{ColorInfo, CommonVideo, Thumbnail};

fn thumbnail(quality: &str) -> Thumbnail {
    Thumbnail { quality: quality.to_string(), url: format!("https://img.example/{}.jpg", quality), width: 320, height: 180 }
}

fn video(views: u64, thumbnails: Vec<Thumbnail>) -> CommonVideo {
    CommonVideo {
        id: "id".to_string(),
        title: "title".to_string(),
        author: "author".to_string(),
        published: 1,
        published_text: "now".to_string(),
        views,
        thumbnails,
    }
}

#[test]
fn the_preview_image_is_the_fourth_rendition() {
    let all = vec![thumbnail("maxres"), thumbnail("sddefault"), thumbnail("high"), thumbnail("medium"), thumbnail("default")];
    assert_eq!(video(0, all).preview_thumbnail_url(), "https://img.example/medium.jpg");
}

#[test]
fn a_video_with_fewer_renditions_has_no_preview_image() {
    let three = vec![thumbnail("maxres"), thumbnail("sddefault"), thumbnail("high")];
    assert_eq!(video(0, three).preview_thumbnail_url(), "");
    assert_eq!(video(0, vec![]).preview_thumbnail_url(), "");
}

#[test]
fn views_are_shown_in_groups_of_three() {
    assert_eq!(video(0, vec![]).views_text(), "0");
    assert_eq!(video(7, vec![]).views_text(), "7");
    assert_eq!(video(999, vec![]).views_text(), "999");
    assert_eq!(video(1000, vec![]).views_text(), "1,000");
    assert_eq!(video(1_234_567, vec![]).views_text(), "1,234,567");
    assert_eq!(video(1_000_007, vec![]).views_text(), "1,000,007");
    assert_eq!(video(u64::MAX, vec![]).views_text(), "18,446,744,073,709,551,615");
}

#[test]
fn the_default_colour_description_is_empty() {
    let info = ColorInfo::default();
    assert_eq!(info.primaries, "");
    assert_eq!(info.transfer_characteristics, "");
    assert_eq!(info.matrix_coefficients, "");
}
