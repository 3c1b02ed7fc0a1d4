//! The feed document: the entries of a listener's fresh releases, written as
//! RSS by the `rss` crate.

use crate::listenbrainz::{
    feed_title, feed_title_view, feed_url, feed_url_view, renderable, FeedItem, FeedItemView,
    LbzRelease, Payload,
};
use crate::links::decoded;
use crate::musicbrainz::CachedRelease;
use vstd::prelude::*;
use vstd::string::*;

verus! {

/// Language of the feed.
pub const LANGUAGE: &'static str = "en-US";

/// Address of the feed's image, which is also where the image links to.
pub const LOGO_URL: &'static str = "https://listenbrainz.org/static/img/listenbrainz-logo.svg";

/// Title of the feed's image.
pub const LOGO_TITLE: &'static str = "ListenBrainz logo";

#[verifier::external_type_specification]
#[verifier::external_body]
pub struct ExRssItem(rss::Item);

/// The item that the `rss` crate's builders make of an entry and of the flag
/// that says whether its identity is a permanent link.
pub uninterp spec fn built_item(entry: FeedItemView, permalink: bool) -> rss::Item;

/// The document that the `rss` crate writes for a channel with this title,
/// link, language, image and items, and nothing else set.
pub uninterp spec fn channel_text(
    title: Seq<char>,
    link: Seq<char>,
    language: Seq<char>,
    logo: Seq<char>,
    logo_title: Seq<char>,
    items: Seq<rss::Item>,
) -> Seq<char>;

/// Builds the item of an entry with `rss::ItemBuilder`, its identity with
/// `rss::GuidBuilder` and its category, if any, with `rss::CategoryBuilder`.
/// The builders copy the fields they are given and leave the others at their
/// defaults, so the item is a function of the entry and the flag.
#[verifier::external_body]
fn rss_item(entry: &FeedItem, permalink: bool) -> (out: rss::Item)
    ensures
        out == built_item(entry@, permalink),
{
    let guid = rss::GuidBuilder::default().permalink(permalink).value(entry.guid.clone()).build();
    let categories: Vec<rss::Category> =
        entry.category.iter().map(|c| rss::CategoryBuilder::default().name(c).build()).collect();
    rss::ItemBuilder::default()
        .guid(Some(guid))
        .content(Some(entry.content.clone()))
        .link(Some(entry.link.clone()))
        .title(Some(entry.title.clone()))
        .description(Some(entry.description.clone()))
        .categories(categories)
        .pub_date(Some(entry.pub_date.clone()))
        .build()
}

/// Sets title, image, link, language and items on a default `rss::Channel`
/// and writes it with its `to_string`. The writer reads nothing but the
/// channel, so the text is a function of what was set.
#[verifier::external_body]
fn rss_document(
    title: &str,
    link: &str,
    language: &str,
    logo: &str,
    logo_title: &str,
    items: Vec<rss::Item>,
) -> (out: String)
    ensures
        out@ == channel_text(title@, link@, language@, logo@, logo_title@, items@),
{
    let mut channel = rss::Channel::default();
    channel.set_title(title);
    channel.set_image(
        rss::ImageBuilder::default().link(logo).url(logo).title(logo_title).build(),
    );
    channel.set_link(link);
    channel.set_language(language.to_string());
    channel.set_items(items);
    channel.to_string()
}

/// The items of the feed: that of each release, enriched with the record at
/// its position, its identity being a permanent link.
pub open spec fn feed_items(releases: Seq<LbzRelease>, resolved: Seq<CachedRelease>) -> Seq<
    rss::Item,
>
    recommends
        renderable(releases, resolved),
{
    Seq::new(
        releases.len(),
        |i: int|
            built_item(
                releases[i].item_view(resolved[i].has_front, decoded(resolved[i].urls@)->0),
                true,
            ),
    )
}

/// The feed document of `user` for these releases and records.
pub open spec fn feed_text(
    user: Seq<char>,
    releases: Seq<LbzRelease>,
    resolved: Seq<CachedRelease>,
) -> Seq<char> {
    channel_text(
        feed_title_view(user),
        feed_url_view(user),
        LANGUAGE@,
        LOGO_URL@,
        LOGO_TITLE@,
        feed_items(releases, resolved),
    )
}

impl Payload {
    /// Writes the feed of `user`: one entry for each release, in order, each
    /// with the record at its position in `resolved`. Returns `None` exactly
    /// when `resolved` cannot be shown with the releases.
    pub fn to_feed(&self, user: &str, resolved: &Vec<CachedRelease>) -> (out: Option<String>)
        ensures
            out is Some <==> renderable(self.payload.releases@, resolved@),
            out matches Some(text) ==> text@ == feed_text(
                user@,
                self.payload.releases@,
                resolved@,
            ),
    {
        let entries = match self.to_items(resolved) {
            Some(entries) => entries,
            None => { return None; },
        };
        let mut items: Vec<rss::Item> = Vec::new();
        let mut i: usize = 0;
        while i < entries.len()
            invariant
                i <= entries.len(),
                items.len() == i,
                forall|j: int| 0 <= j < i ==> #[trigger] items[j] == built_item(entries[j]@, true),
            decreases entries.len() - i,
        {
            items.push(rss_item(&entries[i], true));
            i += 1;
        }
        assert(items@ =~= feed_items(self.payload.releases@, resolved@));
        let title = feed_title(user);
        let link = feed_url(user);
        Some(rss_document(title.as_str(), link.as_str(), LANGUAGE, LOGO_URL, LOGO_TITLE, items))
    }
}

} // verus!
