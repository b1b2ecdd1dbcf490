use subfeed::{
    videos_of_document, videos_of_response, CommonVideo, FetchError, FetchRequest, Resource, Thumbnail,
};

const VIDEO: &str = r#"{"type":"video","title":"A title","videoId":"abc123","author":"Someone",
    "authorId":"UC1","videoThumbnails":[
      {"quality":"maxres","url":"https://img.example/maxres.jpg","width":1280,"height":720},
      {"quality":"default","url":"https://img.example/default.jpg","width":120,"height":90}],
    "viewCount":1234567,"published":1700000000,"publishedText":"3 days ago","lengthSeconds":61}"#;

fn expected() -> CommonVideo {
    CommonVideo {
        id: "abc123".to_string(),
        title: "A title".to_string(),
        author: "Someone".to_string(),
        published: 1_700_000_000,
        published_text: "3 days ago".to_string(),
        views: 1_234_567,
        thumbnails: vec![
            Thumbnail { quality: "maxres".to_string(), url: "https://img.example/maxres.jpg".to_string(), width: 1280, height: 720 },
            Thumbnail { quality: "default".to_string(), url: "https://img.example/default.jpg".to_string(), width: 120, height: 90 },
        ],
    }
}

#[test]
fn an_answer_that_is_a_list() {
    let body = format!("[{},{}]", VIDEO, VIDEO);
    assert_eq!(videos_of_response(&body), Ok(vec![expected(), expected()]));
}

#[test]
fn an_answer_that_holds_a_list() {
    let body = format!(r#"{{"videos":[{}],"continuation":"next"}}"#, VIDEO);
    assert_eq!(videos_of_response(&body), Ok(vec![expected()]));
}

#[test]
fn an_answer_without_videos() {
    assert_eq!(videos_of_response("[]"), Ok(vec![]));
    assert_eq!(videos_of_response(r#"{"videos":[]}"#), Ok(vec![]));
}

#[test]
fn an_answer_that_is_no_document() {
    assert_eq!(videos_of_response("<html>Bad Gateway</html>"), Err(FetchError::NotJson));
    assert_eq!(videos_of_response(""), Err(FetchError::NotJson));
}

#[test]
fn an_answer_of_another_shape() {
    assert_eq!(videos_of_response(r#"{"error":"This channel does not exist."}"#), Err(FetchError::Malformed));
    assert_eq!(videos_of_response(r#"{"videos":"none"}"#), Err(FetchError::Malformed));
    assert_eq!(videos_of_response("7"), Err(FetchError::Malformed));
    assert_eq!(videos_of_response("null"), Err(FetchError::Malformed));
}

#[test]
fn one_video_of_another_shape_spoils_the_answer() {
    let without_id = VIDEO.replace("\"videoId\":\"abc123\",", "");
    assert_eq!(videos_of_response(&format!("[{},{}]", VIDEO, without_id)), Err(FetchError::Malformed));
    let negative = VIDEO.replace("\"published\":1700000000", "\"published\":-5");
    assert_eq!(videos_of_response(&format!("[{}]", negative)), Err(FetchError::Malformed));
    let fraction = VIDEO.replace("\"viewCount\":1234567", "\"viewCount\":12.5");
    assert_eq!(videos_of_response(&format!("[{}]", fraction)), Err(FetchError::Malformed));
    let wide = VIDEO.replace("\"width\":1280", "\"width\":4294967296");
    assert_eq!(videos_of_response(&format!("[{}]", wide)), Err(FetchError::Malformed));
    let no_list = VIDEO.replace("\"videoThumbnails\":[", "\"videoThumbnails\":7,\"other\":[");
    assert_eq!(videos_of_response(&format!("[{}]", no_list)), Err(FetchError::Malformed));
    assert_eq!(videos_of_response("[17]"), Err(FetchError::Malformed));
}

#[test]
fn the_widest_numbers_that_fit() {
    let body = r#"[{"videoId":"","title":"","author":"","published":18446744073709551615,
        "publishedText":"","viewCount":0,
        "videoThumbnails":[{"quality":"","url":"","width":4294967295,"height":0}]}]"#;
    let videos = videos_of_response(body).unwrap();
    assert_eq!(videos[0].published, u64::MAX);
    assert_eq!(videos[0].thumbnails[0].width, u32::MAX);
}

#[test]
fn a_listing_handed_over_directly_is_read_the_same() {
    let document: serde_json::Value = serde_json::from_str(&format!("[{}]", VIDEO)).unwrap();
    assert_eq!(videos_of_document(&document), Ok(vec![expected()]));
}

#[test]
fn a_request_asks_its_address_and_reads_the_answer() {
    let request = FetchRequest {
        server: "https://example.org".to_string(),
        channel_id: "UC1".to_string(),
        resource: Resource::FeedVideos,
    };
    let transport = |url: String| -> Result<String, FetchError> {
        assert_eq!(url, "https://example.org/api/v1/channels/UC1/latest");
        Ok(format!("[{}]", VIDEO))
    };
    assert_eq!(request.fetch(&transport), Ok(vec![expected()]));
}

#[test]
fn a_failed_transport_is_the_error_of_the_request() {
    let request = FetchRequest {
        server: "https://example.org".to_string(),
        channel_id: "UC1".to_string(),
        resource: Resource::DirectVideos,
    };
    let down = |_url: String| -> Result<String, FetchError> { Err(FetchError::Transport("timed out".to_string())) };
    assert_eq!(request.fetch(&down), Err(FetchError::Transport("timed out".to_string())));
    let garbled = |_url: String| -> Result<String, FetchError> { Ok("{".to_string()) };
    assert_eq!(request.fetch(&garbled), Err(FetchError::NotJson));
}
