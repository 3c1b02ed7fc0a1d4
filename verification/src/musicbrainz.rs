//! The metadata service's answer for one release, and the record that is
//! cached for it.

use crate::links::{decode_links, decoded, encode_links, encoded, links_view, ExternalLink};
use vstd::prelude::*;
use vstd::string::*;

verus! {

/// Root of the metadata service's web API.
pub const MUSICBRAINZ_API: &'static str = "https://musicbrainz.org/ws/2/";

/// Label of a link whose relation type the service left out.
pub const UNKNOWN_TYPE: &'static str = "Unknown type";

/// Cover-art summary of a release.
#[derive(Debug)]
pub struct CoverArtArchive {
    pub front: bool,
}

/// Target of a URL relation.
#[derive(Debug)]
pub struct Url {
    pub resource: Option<String>,
}

/// One relation of a release, as the service reports it.
#[derive(Debug)]
pub struct Relations {
    pub target_type: Option<String>,
    pub rel_type: Option<String>,
    pub url: Option<Url>,
}

/// The fields of the service's answer that the resolver reads.
#[derive(Debug)]
pub struct MbzRelease {
    pub cover_art_archive: Option<CoverArtArchive>,
    pub relations: Option<Vec<Relations>>,
}

/// The cached enrichment of one release: whether front cover art exists, and
/// its external links in their stored encoding.
#[derive(Debug)]
pub struct CachedRelease {
    pub id: String,
    pub has_front: bool,
    pub urls: String,
}

/// A cached release as plain values.
pub struct ReleaseView {
    pub id: Seq<char>,
    pub has_front: bool,
    pub urls: Seq<char>,
}

impl View for CachedRelease {
    type V = ReleaseView;

    open spec fn view(&self) -> ReleaseView {
        ReleaseView { id: self.id@, has_front: self.has_front, urls: self.urls@ }
    }
}

impl Clone for CachedRelease {
    fn clone(&self) -> (out: Self)
        ensures
            out == *self,
    {
        CachedRelease { id: self.id.clone(), has_front: self.has_front, urls: self.urls.clone() }
    }
}

impl Default for CachedRelease {
    fn default() -> (out: Self)
        ensures
            out@ == (ReleaseView { id: Seq::empty(), has_front: false, urls: Seq::empty() }),
    {
        CachedRelease { id: String::new(), has_front: false, urls: String::new() }
    }
}

impl CachedRelease {
    /// The external links of the release, read back from their stored
    /// encoding; `None` exactly when the stored text holds no sequence of
    /// links.
    pub fn links(&self) -> (out: Option<Vec<ExternalLink>>)
        ensures
            match out {
                Some(links) => decoded(self.urls@) == Some(links_view(links@)),
                None => decoded(self.urls@) is None,
            },
    {
        decode_links(self.urls.as_str())
    }
}

impl Relations {
    /// Whether the relation is kept as an external link: it targets a URL
    /// and the URL's resource is present.
    pub open spec fn is_url_link(&self) -> bool {
        &&& self.url is Some
        &&& self.target_type is Some
        &&& self.target_type->0@ == "url"@
        &&& self.url->0.resource is Some
    }

    /// The link that a kept relation yields: its relation type, or the
    /// fallback label where the type is absent, and its resource.
    pub open spec fn link_view(&self) -> (Seq<char>, Seq<char>)
        recommends
            self.is_url_link(),
    {
        (
            match self.rel_type {
                Some(label) => label@,
                None => UNKNOWN_TYPE@,
            },
            self.url->0.resource->0@,
        )
    }

    /// The external link of this relation, if it is kept as one.
    pub fn link(&self) -> (out: Option<ExternalLink>)
        ensures
            out is Some <==> self.is_url_link(),
            out is Some ==> out->0@ == self.link_view(),
    {
        let url = match &self.url {
            Some(url) => url,
            None => { return None; },
        };
        let target = match &self.target_type {
            Some(target) => target,
            None => { return None; },
        };
        let wanted = String::from_str("url");
        if !(*target == wanted) {
            return None;
        }
        match &url.resource {
            Some(resource) => {
                let rel_type = match &self.rel_type {
                    Some(label) => label.clone(),
                    None => String::from_str(UNKNOWN_TYPE),
                };
                Some(ExternalLink { rel_type, url: resource.clone() })
            },
            None => None,
        }
    }
}

/// The external links among `relations`, in the order of the relations.
pub open spec fn url_links(relations: Seq<Relations>) -> Seq<(Seq<char>, Seq<char>)>
    decreases relations.len(),
{
    if relations.len() == 0 {
        Seq::empty()
    } else if relations.last().is_url_link() {
        url_links(relations.drop_last()).push(relations.last().link_view())
    } else {
        url_links(relations.drop_last())
    }
}

impl MbzRelease {
    /// Whether the answer reports front cover art; an answer without a
    /// cover-art summary reports none.
    pub open spec fn front_view(&self) -> bool {
        match self.cover_art_archive {
            Some(art) => art.front,
            None => false,
        }
    }

    /// The external links of the answer; an answer without a relation list
    /// has none.
    pub open spec fn links_view(&self) -> Seq<(Seq<char>, Seq<char>)> {
        match self.relations {
            Some(relations) => url_links(relations@),
            None => Seq::empty(),
        }
    }

    /// The record that is cached for release `id` after this answer.
    pub open spec fn cached_view(&self, id: Seq<char>) -> ReleaseView {
        ReleaseView { id, has_front: self.front_view(), urls: encoded(self.links_view()) }
    }

    pub fn has_front(&self) -> (out: bool)
        ensures
            out == self.front_view(),
    {
        match &self.cover_art_archive {
            Some(art) => art.front,
            None => false,
        }
    }

    pub fn external_links(&self) -> (out: Vec<ExternalLink>)
        ensures
            links_view(out@) == self.links_view(),
    {
        let mut out: Vec<ExternalLink> = Vec::new();
        match &self.relations {
            Some(relations) => {
                let mut i: usize = 0;
                assert(relations@.take(0) =~= Seq::empty());
                assert(links_view(out@) =~= Seq::empty());
                while i < relations.len()
                    invariant
                        i <= relations.len(),
                        links_view(out@) == url_links(relations@.take(i as int)),
                    decreases relations.len() - i,
                {
                    assert(relations@.take(i + 1).drop_last() =~= relations@.take(i as int));
                    assert(relations@.take(i + 1).last() == relations[i as int]);
                    let ghost before = links_view(out@);
                    match relations[i].link() {
                        Some(link) => {
                            out.push(link);
                            assert(links_view(out@) =~= before.push(link@));
                        },
                        None => {},
                    }
                    i += 1;
                }
                assert(relations@.take(i as int) =~= relations@);
            },
            None => {
                assert(links_view(out@) =~= Seq::empty());
            },
        }
        out
    }

    /// Builds the record to cache for release `id`.
    pub fn to_cached(&self, id: &str) -> (out: CachedRelease)
        ensures
            out@ == self.cached_view(id@),
    {
        let links = self.external_links();
        CachedRelease {
            id: String::from_str(id),
            has_front: self.has_front(),
            urls: encode_links(&links),
        }
    }
}

/// The address of the one request that fetches release `id`.
pub open spec fn request_url_view(id: Seq<char>) -> Seq<char> {
    MUSICBRAINZ_API@ + "release/"@ + id + "?inc=url-rels&fmt=json"@
}

/// Builds the address of the request that fetches release `id`, with its
/// URL relations, as JSON.
pub fn request_url(id: &str) -> (out: String)
    ensures
        out@ == request_url_view(id@),
{
    let mut out = String::from_str(MUSICBRAINZ_API);
    out.append("release/");
    out.append(id);
    out.append("?inc=url-rels&fmt=json");
    out
}

} // verus!
