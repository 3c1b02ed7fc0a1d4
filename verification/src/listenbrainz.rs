//! Fresh releases of a listener, and the feed entries made of them.

use crate::links::{decode_links, decoded, links_view, strings_view, ExternalLink};
use crate::markup::{
    artist_markup, artist_markup_view, description_markup, description_markup_view,
    image_markup, image_markup_view, join_lines, joined, link_list_markup,
    link_list_markup_view, link_markup, link_markup_view, several_artists_markup,
    several_artists_markup_view, single_artist_markup, single_artist_markup_view,
};
use crate::musicbrainz::CachedRelease;
use vstd::prelude::*;
use vstd::string::*;

verus! {

/// Root of the listening-history service's web API.
pub const API_URL: &'static str = "https://api.listenbrainz.org/1/";

/// Root of the addresses of cover art, by release.
pub const ART_URL: &'static str = "https://coverartarchive.org/release/";

/// Root of the pages that readers are sent to.
pub const FRONT_URL: &'static str = "https://listenbrainz.org/";

/// Number of days that a feed looks back where the request names none.
pub const DEFAULT_DAYS: u32 = 30;

/// The number of days that a feed looks back: the number asked for, or the
/// default.
pub fn window_days(days: Option<u32>) -> (out: u32)
    ensures
        out == match days {
            Some(n) => n,
            None => DEFAULT_DAYS,
        },
{
    match days {
        Some(n) => n,
        None => DEFAULT_DAYS,
    }
}

/// One fresh release, as the listening-history service reports it.
#[derive(Debug)]
pub struct LbzRelease {
    pub artist_credit_name: String,
    pub artist_mbids: Vec<String>,
    pub caa_id: Option<i64>,
    pub caa_release_mbid: Option<String>,
    pub confidence: Option<i64>,
    pub listen_count: i64,
    pub release_date: String,
    pub release_group_mbid: String,
    pub release_group_primary_type: Option<String>,
    pub release_group_secondary_type: Option<String>,
    pub release_mbid: String,
    pub release_name: String,
    pub release_tags: Vec<String>,
}

/// The releases of an answer.
#[derive(Debug)]
pub struct Releases {
    pub releases: Vec<LbzRelease>,
}

/// The listening-history service's answer.
#[derive(Debug)]
pub struct Payload {
    pub payload: Releases,
}

/// One entry of the feed, as plain text fields.
#[derive(Debug)]
pub struct FeedItem {
    /// The entry's identity, which is also its permanent link.
    pub guid: String,
    pub content: String,
    pub link: String,
    pub title: String,
    pub description: String,
    pub category: Option<String>,
    pub pub_date: String,
}

/// A feed entry as plain values.
pub struct FeedItemView {
    pub guid: Seq<char>,
    pub content: Seq<char>,
    pub link: Seq<char>,
    pub title: Seq<char>,
    pub description: Seq<char>,
    pub category: Option<Seq<char>>,
    pub pub_date: Seq<char>,
}

impl View for FeedItem {
    type V = FeedItemView;

    open spec fn view(&self) -> FeedItemView {
        FeedItemView {
            guid: self.guid@,
            content: self.content@,
            link: self.link@,
            title: self.title@,
            description: self.description@,
            category: match self.category {
                Some(name) => Some(name@),
                None => None,
            },
            pub_date: self.pub_date@,
        }
    }
}

/// Address of the fresh releases of `user`.
pub open spec fn feed_url_view(user: Seq<char>) -> Seq<char> {
    API_URL@ + "user/"@ + user + "/fresh_releases"@
}

/// Builds the address of the fresh releases of `user`.
pub fn feed_url(user: &str) -> (out: String)
    ensures
        out@ == feed_url_view(user@),
{
    let mut out = String::from_str(API_URL);
    out.append("user/");
    out.append(user);
    out.append("/fresh_releases");
    out
}

/// Title of the feed of `user`.
pub open spec fn feed_title_view(user: Seq<char>) -> Seq<char> {
    "Releases for "@ + user
}

/// Builds the title of the feed of `user`.
pub fn feed_title(user: &str) -> (out: String)
    ensures
        out@ == feed_title_view(user@),
{
    let mut out = String::from_str("Releases for ");
    out.append(user);
    out
}

/// Page of a release.
pub open spec fn permalink_view(release_mbid: Seq<char>) -> Seq<char> {
    FRONT_URL@ + "release/"@ + release_mbid
}

/// Builds the address of a release's page.
pub fn permalink(release_mbid: &str) -> (out: String)
    ensures
        out@ == permalink_view(release_mbid@),
{
    let mut out = String::from_str(FRONT_URL);
    out.append("release/");
    out.append(release_mbid);
    out
}

/// Page of an artist.
pub open spec fn artist_url_view(artist_mbid: Seq<char>) -> Seq<char> {
    FRONT_URL@ + "artist/"@ + artist_mbid
}

/// Builds the address of an artist's page.
pub fn artist_url(artist_mbid: &str) -> (out: String)
    ensures
        out@ == artist_url_view(artist_mbid@),
{
    let mut out = String::from_str(FRONT_URL);
    out.append("artist/");
    out.append(artist_mbid);
    out
}

/// Address of a release's front cover in the size named by `suffix`.
pub open spec fn art_url_view(release_mbid: Seq<char>, suffix: Seq<char>) -> Seq<char> {
    ART_URL@ + release_mbid + suffix
}

/// Builds the address of a release's front cover in the size named by
/// `suffix`.
pub fn art_url(release_mbid: &str, suffix: &str) -> (out: String)
    ensures
        out@ == art_url_view(release_mbid@, suffix@),
{
    let mut out = String::from_str(ART_URL);
    out.append(release_mbid);
    out.append(suffix);
    out
}

/// The list entries of the links, in order.
pub open spec fn link_entries(links: Seq<(Seq<char>, Seq<char>)>) -> Seq<Seq<char>> {
    links.map_values(|l: (Seq<char>, Seq<char>)| link_markup_view(l.0, l.1))
}

/// The block that lists a release's links: nothing where it has none.
pub open spec fn links_block_view(links: Seq<(Seq<char>, Seq<char>)>) -> Seq<char> {
    if links.len() == 0 {
        Seq::empty()
    } else {
        link_list_markup_view(joined(link_entries(links), "\n"@))
    }
}

/// Builds the block that lists a release's links.
pub fn links_block(links: &Vec<ExternalLink>) -> (out: String)
    ensures
        out@ == links_block_view(links_view(links@)),
{
    if links.len() == 0 {
        return String::new();
    }
    let mut entries: Vec<String> = Vec::new();
    let mut i: usize = 0;
    while i < links.len()
        invariant
            i <= links.len(),
            entries.len() == i,
            forall|j: int|
                0 <= j < i ==> (#[trigger] entries[j])@ == link_markup_view(
                    links[j].rel_type@,
                    links[j].url@,
                ),
        decreases links.len() - i,
    {
        entries.push(link_markup(links[i].rel_type.as_str(), links[i].url.as_str()));
        i += 1;
    }
    assert(strings_view(entries@) =~= link_entries(links_view(links@)));
    let all = join_lines(&entries);
    link_list_markup(all.as_str())
}

/// The list entries of the artists, in order.
pub open spec fn artist_entries(artist_mbids: Seq<Seq<char>>) -> Seq<Seq<char>> {
    artist_mbids.map_values(|m: Seq<char>| artist_markup_view(artist_url_view(m)))
}

/// Builds the list entries of a release's artists, joined by line feeds.
pub fn artists_block(artist_mbids: &Vec<String>) -> (out: String)
    ensures
        out@ == joined(artist_entries(strings_view(artist_mbids@)), "\n"@),
{
    let mut entries: Vec<String> = Vec::new();
    let mut i: usize = 0;
    while i < artist_mbids.len()
        invariant
            i <= artist_mbids.len(),
            entries.len() == i,
            forall|j: int|
                0 <= j < i ==> (#[trigger] entries[j])@ == artist_markup_view(
                    artist_url_view(artist_mbids[j]@),
                ),
        decreases artist_mbids.len() - i,
    {
        let address = artist_url(artist_mbids[i].as_str());
        entries.push(artist_markup(address.as_str()));
        i += 1;
    }
    assert(strings_view(entries@) =~= artist_entries(strings_view(artist_mbids@)));
    join_lines(&entries)
}

impl LbzRelease {
    /// The thumbnail of the entry: shown only where front cover art exists.
    pub open spec fn image_view(&self, has_front: bool) -> Seq<char> {
        if has_front {
            image_markup_view(art_url_view(self.release_mbid@, "/front-250"@), self.release_name@)
        } else {
            Seq::empty()
        }
    }

    /// The content of the entry: the release, its artist or artists, and its
    /// cover. One artist is linked by name; otherwise the artists are listed.
    pub open spec fn content_view(&self) -> Seq<char> {
        let art = art_url_view(self.release_mbid@, "/front-500"@);
        if self.artist_mbids@.len() == 1 {
            single_artist_markup_view(
                permalink_view(self.release_mbid@),
                self.release_name@,
                artist_url_view(self.artist_mbids@[0]@),
                self.artist_credit_name@,
                art,
                self.release_name@,
            )
        } else {
            several_artists_markup_view(
                permalink_view(self.release_mbid@),
                self.release_name@,
                self.artist_credit_name@,
                joined(artist_entries(strings_view(self.artist_mbids@)), "\n"@),
                art,
                self.release_name@,
            )
        }
    }

    /// The feed entry of this release, enriched with the cover-art flag and
    /// the links that were resolved for it.
    pub open spec fn item_view(
        &self,
        has_front: bool,
        links: Seq<(Seq<char>, Seq<char>)>,
    ) -> FeedItemView {
        FeedItemView {
            guid: permalink_view(self.release_mbid@),
            content: self.content_view(),
            link: permalink_view(self.release_mbid@),
            title: self.release_name@,
            description: description_markup_view(
                self.image_view(has_front),
                self.artist_credit_name@,
                links_block_view(links),
            ),
            category: match self.release_group_primary_type {
                Some(name) => Some(name@),
                None => None,
            },
            pub_date: self.release_date@,
        }
    }

    /// Builds the content of the entry.
    pub fn content(&self) -> (out: String)
        ensures
            out@ == self.content_view(),
    {
        let page = permalink(self.release_mbid.as_str());
        let art = art_url(self.release_mbid.as_str(), "/front-500");
        if self.artist_mbids.len() == 1 {
            let artist = artist_url(self.artist_mbids[0].as_str());
            single_artist_markup(
                page.as_str(),
                self.release_name.as_str(),
                artist.as_str(),
                self.artist_credit_name.as_str(),
                art.as_str(),
                self.release_name.as_str(),
            )
        } else {
            let artists = artists_block(&self.artist_mbids);
            several_artists_markup(
                page.as_str(),
                self.release_name.as_str(),
                self.artist_credit_name.as_str(),
                artists.as_str(),
                art.as_str(),
                self.release_name.as_str(),
            )
        }
    }

    /// Builds the feed entry of this release from what was resolved for it.
    pub fn to_item(&self, has_front: bool, links: &Vec<ExternalLink>) -> (out: FeedItem)
        ensures
            out@ == self.item_view(has_front, links_view(links@)),
    {
        let image = if has_front {
            let thumb = art_url(self.release_mbid.as_str(), "/front-250");
            image_markup(thumb.as_str(), self.release_name.as_str())
        } else {
            String::new()
        };
        let block = links_block(links);
        let description = description_markup(
            image.as_str(),
            self.artist_credit_name.as_str(),
            block.as_str(),
        );
        let category = match &self.release_group_primary_type {
            Some(name) => Some(name.clone()),
            None => None,
        };
        FeedItem {
            guid: permalink(self.release_mbid.as_str()),
            content: self.content(),
            link: permalink(self.release_mbid.as_str()),
            title: self.release_name.clone(),
            description,
            category,
            pub_date: self.release_date.clone(),
        }
    }
}

/// The identifiers of the releases, in order.
pub open spec fn release_ids_view(releases: Seq<LbzRelease>) -> Seq<Seq<char>> {
    releases.map_values(|r: LbzRelease| r.release_mbid@)
}

/// Whether `resolved` can be shown with `releases`: it has a record for each
/// release, by position, and the stored links of each can be read.
pub open spec fn renderable(releases: Seq<LbzRelease>, resolved: Seq<CachedRelease>) -> bool {
    &&& releases.len() <= resolved.len()
    &&& forall|i: int|
        0 <= i < releases.len() ==> decoded((#[trigger] resolved[i]).urls@) is Some
}

impl Payload {
    /// The batch to resolve for this answer: the identifier of each release,
    /// in the order of the releases.
    pub fn release_ids(&self) -> (out: Vec<String>)
        ensures
            strings_view(out@) == release_ids_view(self.payload.releases@),
    {
        let releases = &self.payload.releases;
        let mut out: Vec<String> = Vec::new();
        let mut i: usize = 0;
        while i < releases.len()
            invariant
                i <= releases.len(),
                out.len() == i,
                forall|j: int| 0 <= j < i ==> (#[trigger] out[j])@ == releases[j].release_mbid@,
            decreases releases.len() - i,
        {
            out.push(releases[i].release_mbid.clone());
            i += 1;
        }
        assert(strings_view(out@) =~= release_ids_view(releases@));
        out
    }

    /// Builds the feed entries: each release with the record at its position
    /// in `resolved`. Returns `None` exactly when `resolved` cannot be shown
    /// with the releases.
    pub fn to_items(&self, resolved: &Vec<CachedRelease>) -> (out: Option<Vec<FeedItem>>)
        ensures
            out is Some <==> renderable(self.payload.releases@, resolved@),
            out matches Some(items) ==> {
                &&& items.len() == self.payload.releases.len()
                &&& forall|i: int|
                    0 <= i < items.len() ==> (#[trigger] items[i])@
                        == self.payload.releases[i].item_view(
                        resolved[i].has_front,
                        decoded(resolved[i].urls@)->0,
                    )
            },
    {
        let releases = &self.payload.releases;
        if resolved.len() < releases.len() {
            return None;
        }
        let mut items: Vec<FeedItem> = Vec::new();
        let mut i: usize = 0;
        while i < releases.len()
            invariant
                *releases == self.payload.releases,
                i <= releases.len() <= resolved.len(),
                items.len() == i,
                forall|j: int| 0 <= j < i ==> decoded((#[trigger] resolved[j]).urls@) is Some,
                forall|j: int|
                    0 <= j < i ==> (#[trigger] items[j])@ == releases[j].item_view(
                        resolved[j].has_front,
                        decoded(resolved[j].urls@)->0,
                    ),
            decreases releases.len() - i,
        {
            match decode_links(resolved[i].urls.as_str()) {
                Some(links) => {
                    items.push(releases[i].to_item(resolved[i].has_front, &links));
                },
                None => {
                    assert(decoded(resolved@[i as int].urls@) is None);
                    return None;
                },
            }
            i += 1;
        }
        Some(items)
    }
}

} // verus!
