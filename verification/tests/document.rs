use release_feed::feed::{LANGUAGE, LOGO_TITLE, LOGO_URL};
use release_feed::listenbrainz::{LbzRelease, Payload, Releases};
use release_feed::musicbrainz::CachedRelease;
use rss::{CategoryBuilder, Channel, GuidBuilder, ImageBuilder, ItemBuilder};

fn fresh_release(mbid: &str, name: &str, kind: Option<&str>) -> LbzRelease {
    LbzRelease {
        artist_credit_name: "Artist".to_string(),
        artist_mbids: vec!["a1".to_string()],
        caa_id: Some(1),
        caa_release_mbid: Some(mbid.to_string()),
        confidence: None,
        listen_count: 3,
        release_date: "2024-06-07".to_string(),
        release_group_mbid: "g".to_string(),
        release_group_primary_type: kind.map(|k| k.to_string()),
        release_group_secondary_type: None,
        release_mbid: mbid.to_string(),
        release_name: name.to_string(),
        release_tags: vec!["tag".to_string()],
    }
}

fn answer() -> Payload {
    Payload {
        payload: Releases {
            releases: vec![fresh_release("m1", "One & Only", Some("Album")), fresh_release("m2", "Two", None)],
        },
    }
}

fn records() -> Vec<CachedRelease> {
    vec![
        CachedRelease { id: "m1".to_string(), has_front: true, urls: String::new() },
        CachedRelease {
            id: "m2".to_string(),
            has_front: false,
            urls: "streaming\u{200b}https://s.example".to_string(),
        },
    ]
}

#[test]
fn feed_constants() {
    assert_eq!(LANGUAGE, "en-US");
    assert_eq!(LOGO_URL, "https://listenbrainz.org/static/img/listenbrainz-logo.svg");
    assert_eq!(LOGO_TITLE, "ListenBrainz logo");
}

#[test]
fn feed_document_reads_back() {
    let payload = answer();
    let text = payload.to_feed("alice", &records()).expect("a record for each release");
    let channel = Channel::read_from(text.as_bytes()).expect("the document is RSS");
    assert_eq!(channel.title(), "Releases for alice");
    assert_eq!(channel.link(), "https://api.listenbrainz.org/1/user/alice/fresh_releases");
    assert_eq!(channel.language(), Some("en-US"));
    let image = channel.image().expect("the feed has an image");
    assert_eq!(image.url(), "https://listenbrainz.org/static/img/listenbrainz-logo.svg");
    assert_eq!(image.link(), "https://listenbrainz.org/static/img/listenbrainz-logo.svg");
    assert_eq!(image.title(), "ListenBrainz logo");
    let items = channel.items();
    assert_eq!(items.len(), 2);
    assert_eq!(items[0].title(), Some("One & Only"));
    assert_eq!(items[0].link(), Some("https://listenbrainz.org/release/m1"));
    assert_eq!(items[0].pub_date(), Some("2024-06-07"));
    let guid = items[0].guid().expect("each entry has an identity");
    assert_eq!(guid.value(), "https://listenbrainz.org/release/m1");
    assert!(guid.is_permalink());
    assert_eq!(items[0].categories().len(), 1);
    assert_eq!(items[0].categories()[0].name(), "Album");
    assert!(items[1].categories().is_empty());
    let entries = payload.to_items(&records()).expect("a record for each release");
    assert_eq!(items[0].description(), Some(entries[0].description.as_str()));
    assert_eq!(items[0].content(), Some(entries[0].content.as_str()));
    assert_eq!(items[1].description(), Some(entries[1].description.as_str()));
    assert!(items[1].description().expect("a description").contains("https://s.example"));
}

#[test]
fn feed_document_is_what_the_builders_write() {
    let payload = answer();
    let entries = payload.to_items(&records()).expect("a record for each release");
    let mut expected = Channel::default();
    expected.set_title("Releases for bob".to_string());
    expected.set_image(
        ImageBuilder::default()
            .link(String::from("https://listenbrainz.org/static/img/listenbrainz-logo.svg"))
            .url(String::from("https://listenbrainz.org/static/img/listenbrainz-logo.svg"))
            .title(String::from("ListenBrainz logo"))
            .build(),
    );
    expected.set_link("https://api.listenbrainz.org/1/user/bob/fresh_releases".to_string());
    expected.set_language(String::from("en-US"));
    expected.set_items(
        entries
            .iter()
            .map(|e| {
                ItemBuilder::default()
                    .guid(Some(GuidBuilder::default().permalink(true).value(e.guid.clone()).build()))
                    .content(Some(e.content.clone()))
                    .link(Some(e.link.clone()))
                    .title(Some(e.title.clone()))
                    .description(Some(e.description.clone()))
                    .categories(match &e.category {
                        Some(name) => vec![CategoryBuilder::default().name(name).build()],
                        None => vec![],
                    })
                    .pub_date(Some(e.pub_date.clone()))
                    .build()
            })
            .collect::<Vec<_>>(),
    );
    let text = payload.to_feed("bob", &records()).expect("a record for each release");
    assert_eq!(text, expected.to_string());
}

#[test]
fn feed_document_needs_a_record_for_each_release() {
    let payload = answer();
    assert!(payload.to_feed("alice", &vec![]).is_none());
    let mut broken = records();
    broken[1].urls = "odd".to_string();
    assert!(payload.to_feed("alice", &broken).is_none());
}

#[test]
fn feed_without_releases_has_no_items() {
    let payload = Payload { payload: Releases { releases: vec![] } };
    let text = payload.to_feed("alice", &vec![]).expect("nothing to show");
    let channel = Channel::read_from(text.as_bytes()).expect("the document is RSS");
    assert!(channel.items().is_empty());
    assert_eq!(channel.title(), "Releases for alice");
}
