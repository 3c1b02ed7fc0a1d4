use release_feed::links::ExternalLink;
use release_feed::listenbrainz::{
    art_url, artist_url, artists_block, feed_title, feed_url, links_block, permalink,
    window_days, FeedItem, LbzRelease, Payload, Releases, DEFAULT_DAYS,
};
use release_feed::markup::{
    artist_markup, description_markup, image_markup, join_lines, link_list_markup, link_markup,
    several_artists_markup, single_artist_markup,
};
use release_feed::musicbrainz::CachedRelease;

fn release(mbid: &str, name: &str, artist: &str, artists: &[&str]) -> LbzRelease {
    LbzRelease {
        artist_credit_name: artist.to_string(),
        artist_mbids: artists.iter().map(|s| s.to_string()).collect(),
        caa_id: None,
        caa_release_mbid: None,
        confidence: Some(3),
        listen_count: 12,
        release_date: "2024-05-01".to_string(),
        release_group_mbid: "group".to_string(),
        release_group_primary_type: Some("Album".to_string()),
        release_group_secondary_type: None,
        release_mbid: mbid.to_string(),
        release_name: name.to_string(),
        release_tags: vec![],
    }
}

fn cached(id: &str, has_front: bool, urls: &str) -> CachedRelease {
    CachedRelease { id: id.to_string(), has_front, urls: urls.to_string() }
}

#[test]
fn feed_looks_back_thirty_days_by_default() {
    assert_eq!(DEFAULT_DAYS, 30);
    assert_eq!(window_days(None), 30);
    assert_eq!(window_days(Some(7)), 7);
    assert_eq!(window_days(Some(0)), 0);
}

#[test]
fn feed_address_and_title() {
    assert_eq!(feed_url("alice"), "https://api.listenbrainz.org/1/user/alice/fresh_releases");
    assert_eq!(feed_title("alice"), "Releases for alice");
}

#[test]
fn page_and_art_addresses() {
    assert_eq!(permalink("m1"), "https://listenbrainz.org/release/m1");
    assert_eq!(artist_url("a1"), "https://listenbrainz.org/artist/a1");
    assert_eq!(art_url("m1", "/front-250"), "https://coverartarchive.org/release/m1/front-250");
}

#[test]
fn fragments_have_their_fixed_text() {
    assert_eq!(
        image_markup("https://i.example/x", "Name"),
        format!(
            r#"<img src="{}" alt="{}" width="300px" height="300px" />"#,
            "https://i.example/x", "Name"
        )
    );
    assert_eq!(
        link_markup("streaming", "https://s.example"),
        format!(
            r#"<li>{}: <a href="{}" target="_blank" rel="noreferrer noopener">{}</a></li>"#,
            "streaming", "https://s.example", "https://s.example"
        )
    );
    assert_eq!(
        artist_markup("https://listenbrainz.org/artist/a1"),
        r#"<li><a href="https://listenbrainz.org/artist/a1" rel="noreferrer noopener">https://listenbrainz.org/artist/a1</a></li>"#
    );
    assert_eq!(
        link_list_markup("X"),
        format!(
            r#"<div>
                            <h4>Available at: </h4>
                            <ul>{}</ul>
                        </div>"#,
            "X"
        )
    );
    assert_eq!(
        description_markup("I", "A", "L"),
        format!(
            r#"<div>
                        {}
                        <h3>By {}</h3>
                        {}
                    </div>"#,
            "I", "A", "L"
        )
    );
}

#[test]
fn content_fragments_have_their_fixed_text() {
    assert_eq!(
        single_artist_markup("P", "N", "U", "A", "F", "N"),
        format!(
            r#"<div>
                            <h1><a href="{}" rel="noreferrer noopener">{}</a> </h1>
                            <h3>By <a href="{}" rel="noreferrer noopener">{}</a></h3>
                            <div><img src="{}" alt="{}" width="500px" height="500px" /></div>
                        </div>"#,
            "P", "N", "U", "A", "F", "N"
        )
    );
    assert_eq!(
        several_artists_markup("P", "N", "A", "LIST", "F", "N"),
        format!(
            r#"<div>
                            <h1><a href="{}" rel="noreferrer noopener">{}</a> </h1>
                            <h3>By {}</h3>
                            <div><ul>{}</ul></div>
                            <div><img src="{}" alt="{}" width="500px" height="500px" /></div>
                        </div>"#,
            "P", "N", "A", "LIST", "F", "N"
        )
    );
}

#[test]
fn lines_are_joined_by_line_feeds() {
    assert_eq!(join_lines(&vec![]), "");
    assert_eq!(join_lines(&vec!["a".to_string()]), "a");
    assert_eq!(join_lines(&vec!["a".to_string(), "".to_string(), "c".to_string()]), "a\n\nc");
}

#[test]
fn links_block_is_empty_without_links() {
    assert_eq!(links_block(&vec![]), "");
}

#[test]
fn links_block_lists_each_link() {
    let links = vec![
        ExternalLink { rel_type: "t1".to_string(), url: "u1".to_string() },
        ExternalLink { rel_type: "t2".to_string(), url: "u2".to_string() },
    ];
    let entries = format!("{}\n{}", link_markup("t1", "u1"), link_markup("t2", "u2"));
    assert_eq!(links_block(&links), link_list_markup(&entries));
}

#[test]
fn artists_block_lists_each_artist() {
    assert_eq!(artists_block(&vec![]), "");
    assert_eq!(
        artists_block(&vec!["a1".to_string(), "a2".to_string()]),
        format!(
            "{}\n{}",
            artist_markup("https://listenbrainz.org/artist/a1"),
            artist_markup("https://listenbrainz.org/artist/a2")
        )
    );
}

#[test]
fn release_ids_keep_order() {
    let payload = Payload {
        payload: Releases {
            releases: vec![
                release("m2", "B", "x", &["a"]),
                release("m1", "A", "y", &["a"]),
                release("m2", "B", "x", &["a"]),
            ],
        },
    };
    assert_eq!(payload.release_ids(), vec!["m2".to_string(), "m1".to_string(), "m2".to_string()]);
}

#[test]
fn item_of_release_by_one_artist() {
    let r = release("m1", "Name", "Artist", &["a1"]);
    let item: FeedItem = r.to_item(true, &vec![]);
    assert_eq!(item.guid, "https://listenbrainz.org/release/m1");
    assert_eq!(item.link, "https://listenbrainz.org/release/m1");
    assert_eq!(item.title, "Name");
    assert_eq!(item.pub_date, "2024-05-01");
    assert_eq!(item.category, Some("Album".to_string()));
    assert_eq!(
        item.description,
        description_markup(
            &image_markup("https://coverartarchive.org/release/m1/front-250", "Name"),
            "Artist",
            ""
        )
    );
    assert_eq!(
        item.content,
        single_artist_markup(
            "https://listenbrainz.org/release/m1",
            "Name",
            "https://listenbrainz.org/artist/a1",
            "Artist",
            "https://coverartarchive.org/release/m1/front-500",
            "Name"
        )
    );
    assert_eq!(r.content(), item.content);
}

#[test]
fn item_of_release_by_several_artists_without_art() {
    let mut r = release("m3", "Split", "A & B", &["a1", "a2"]);
    r.release_group_primary_type = None;
    let links = vec![ExternalLink { rel_type: "streaming".to_string(), url: "https://s".to_string() }];
    let item = r.to_item(false, &links);
    assert_eq!(item.category, None);
    assert_eq!(item.description, description_markup("", "A & B", &links_block(&links)));
    assert_eq!(
        item.content,
        several_artists_markup(
            "https://listenbrainz.org/release/m3",
            "Split",
            "A & B",
            &artists_block(&vec!["a1".to_string(), "a2".to_string()]),
            "https://coverartarchive.org/release/m3/front-500",
            "Split"
        )
    );
}

#[test]
fn items_pair_releases_with_records_by_position() {
    let payload = Payload {
        payload: Releases {
            releases: vec![release("m1", "One", "x", &["a"]), release("m2", "Two", "y", &[])],
        },
    };
    let resolved = vec![cached("m1", true, ""), cached("m2", false, "t\u{200b}u")];
    let items = payload.to_items(&resolved).expect("one record for each release");
    assert_eq!(items.len(), 2);
    assert_eq!(items[0].title, "One");
    assert_eq!(items[0].description, payload.payload.releases[0].to_item(true, &vec![]).description);
    let links = vec![ExternalLink { rel_type: "t".to_string(), url: "u".to_string() }];
    assert_eq!(items[1].title, "Two");
    assert_eq!(
        items[1].description,
        payload.payload.releases[1].to_item(false, &links).description
    );
}

#[test]
fn items_need_a_readable_record_for_each_release() {
    let payload = Payload {
        payload: Releases { releases: vec![release("m1", "One", "x", &["a"])] },
    };
    assert!(payload.to_items(&vec![]).is_none());
    assert!(payload.to_items(&vec![cached("m1", true, "lonely")]).is_none());
    // A record beyond the releases is not read.
    let more = vec![cached("m1", true, ""), cached("m9", true, "lonely")];
    assert_eq!(payload.to_items(&more).expect("the first record is enough").len(), 1);
}
