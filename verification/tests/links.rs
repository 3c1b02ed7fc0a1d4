use release_feed::links::{decode_links, encode_links, ExternalLink, ZWSP};
use release_feed::musicbrainz::{
    request_url, CachedRelease, CoverArtArchive, MbzRelease, Relations, Url,
};

fn link(rel_type: &str, url: &str) -> ExternalLink {
    ExternalLink { rel_type: rel_type.to_string(), url: url.to_string() }
}

fn pairs(links: &[ExternalLink]) -> Vec<(String, String)> {
    links.iter().map(|l| (l.rel_type.clone(), l.url.clone())).collect()
}

fn relation(target: Option<&str>, rel_type: Option<&str>, url: Option<Option<&str>>) -> Relations {
    Relations {
        target_type: target.map(|s| s.to_string()),
        rel_type: rel_type.map(|s| s.to_string()),
        url: url.map(|resource| Url { resource: resource.map(|s| s.to_string()) }),
    }
}

#[test]
fn delimiter_is_zero_width_space() {
    assert_eq!(ZWSP, "\u{200b}");
    assert_eq!(ZWSP.chars().count(), 1);
}

#[test]
fn encode_no_links_is_empty() {
    assert_eq!(encode_links(&vec![]), "");
}

#[test]
fn encode_one_link() {
    let text = encode_links(&vec![link("official homepage", "https://example.com")]);
    assert_eq!(text, "official homepage\u{200b}https://example.com");
}

#[test]
fn encode_two_links_uses_one_delimiter_throughout() {
    let text = encode_links(&vec![link("a", "b"), link("c", "d")]);
    assert_eq!(text, "a\u{200b}b\u{200b}c\u{200b}d");
}

#[test]
fn decode_empty_text_has_no_links() {
    let links = decode_links("").expect("empty text holds no links");
    assert!(links.is_empty());
}

#[test]
fn decode_two_links() {
    let links = decode_links("a\u{200b}b\u{200b}c\u{200b}d").expect("four fields");
    assert_eq!(
        pairs(&links),
        vec![("a".to_string(), "b".to_string()), ("c".to_string(), "d".to_string())]
    );
}

#[test]
fn decode_odd_number_of_fields_is_refused() {
    assert!(decode_links("lonely").is_none());
    assert!(decode_links("a\u{200b}b\u{200b}c").is_none());
}

#[test]
fn decode_keeps_empty_fields() {
    let links = decode_links("\u{200b}").expect("two empty fields");
    assert_eq!(pairs(&links), vec![(String::new(), String::new())]);
    let links = decode_links("a\u{200b}\u{200b}\u{200b}d").expect("four fields");
    assert_eq!(
        pairs(&links),
        vec![("a".to_string(), String::new()), (String::new(), "d".to_string())]
    );
}

#[test]
fn decode_handles_text_beyond_ascii() {
    let links = decode_links("sítio\u{200b}https://例え.jp").expect("two fields");
    assert_eq!(pairs(&links), vec![("sítio".to_string(), "https://例え.jp".to_string())]);
}

#[test]
fn round_trip_keeps_order() {
    let links = vec![
        link("streaming", "https://stream.example/1"),
        link("official homepage", "https://example.com"),
        link("", "https://no-type.example"),
        link("streaming", "https://stream.example/1"),
    ];
    let back = decode_links(&encode_links(&links)).expect("an even number of fields");
    assert_eq!(pairs(&back), pairs(&links));
}

#[test]
fn delimiter_inside_a_value_breaks_the_pairing() {
    let links = vec![link("odd\u{200b}type", "https://example.com")];
    assert!(decode_links(&encode_links(&links)).is_none());
}

#[test]
fn cached_release_reads_its_links() {
    let record = CachedRelease {
        id: "rel-1".to_string(),
        has_front: true,
        urls: "official homepage\u{200b}https://example.com".to_string(),
    };
    let links = record.links().expect("two fields");
    assert_eq!(
        pairs(&links),
        vec![("official homepage".to_string(), "https://example.com".to_string())]
    );
    let copy = record.clone();
    assert_eq!(copy.id, "rel-1");
    assert!(copy.has_front);
    assert_eq!(copy.urls, record.urls);
}

#[test]
fn default_record_is_empty() {
    let record = CachedRelease::default();
    assert_eq!(record.id, "");
    assert!(!record.has_front);
    assert_eq!(record.urls, "");
}

#[test]
fn relation_to_url_yields_link() {
    let r = relation(Some("url"), Some("official homepage"), Some(Some("https://example.com")));
    let l = r.link().expect("a URL relation");
    assert_eq!(l.rel_type, "official homepage");
    assert_eq!(l.url, "https://example.com");
}

#[test]
fn relation_without_type_gets_fallback_label() {
    let r = relation(Some("url"), None, Some(Some("https://example.com")));
    let l = r.link().expect("a URL relation");
    assert_eq!(l.rel_type, "Unknown type");
    assert_eq!(l.url, "https://example.com");
}

#[test]
fn relation_that_is_no_url_relation_is_dropped() {
    assert!(relation(Some("artist"), Some("x"), Some(Some("https://e.com"))).link().is_none());
    assert!(relation(None, Some("x"), Some(Some("https://e.com"))).link().is_none());
    assert!(relation(Some("url"), Some("x"), None).link().is_none());
    assert!(relation(Some("url"), Some("x"), Some(None)).link().is_none());
    assert!(relation(Some("URL"), Some("x"), Some(Some("https://e.com"))).link().is_none());
}

#[test]
fn answer_without_fields_gives_bare_record() {
    let release = MbzRelease { cover_art_archive: None, relations: None };
    assert!(!release.has_front());
    assert!(release.external_links().is_empty());
    let record = release.to_cached("rel-0");
    assert_eq!(record.id, "rel-0");
    assert!(!record.has_front);
    assert_eq!(record.urls, "");
}

#[test]
fn answer_is_read_into_record() {
    let release = MbzRelease {
        cover_art_archive: Some(CoverArtArchive { front: true }),
        relations: Some(vec![
            relation(Some("url"), Some("streaming"), Some(Some("https://s.example"))),
            relation(Some("artist"), Some("producer"), None),
            relation(Some("url"), None, Some(Some("https://u.example"))),
            relation(Some("url"), Some("lost"), Some(None)),
        ]),
    };
    assert!(release.has_front());
    assert_eq!(
        pairs(&release.external_links()),
        vec![
            ("streaming".to_string(), "https://s.example".to_string()),
            ("Unknown type".to_string(), "https://u.example".to_string()),
        ]
    );
    let record = release.to_cached("rel-9");
    assert_eq!(record.id, "rel-9");
    assert!(record.has_front);
    assert_eq!(
        record.urls,
        "streaming\u{200b}https://s.example\u{200b}Unknown type\u{200b}https://u.example"
    );
}

#[test]
fn request_url_names_release_and_relations() {
    assert_eq!(
        request_url("rel-2"),
        "https://musicbrainz.org/ws/2/release/rel-2?inc=url-rels&fmt=json"
    );
}
