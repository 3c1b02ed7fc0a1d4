//! Markup of feed entries: the fixed text of each fragment around the values
//! it shows. Values are inserted as they are, without escaping.

use crate::links::strings_view;
use vstd::prelude::*;
use vstd::string::*;

verus! {

/// Markup of a release's thumbnail: its address and its alternative text.
pub open spec fn image_markup_view(address: Seq<char>, name: Seq<char>) -> Seq<char> {
    "<img src=\""@
        + address
        + "\" alt=\""@
        + name
        + "\" width=\"300px\" height=\"300px\" />"@
}

/// Markup of a release's thumbnail: its address and its alternative text.
pub fn image_markup(address: &str, name: &str) -> (out: String)
    ensures
        out@ == image_markup_view(address@, name@),
{
    let mut out = String::from_str("<img src=\"");
    out.append(address);
    out.append("\" alt=\"");
    out.append(name);
    out.append("\" width=\"300px\" height=\"300px\" />");
    assert(out@ =~= image_markup_view(address@, name@));
    out
}

/// Markup of one external link, as a list entry: the relation type, then the URL as a link.
pub open spec fn link_markup_view(rel_type: Seq<char>, url: Seq<char>) -> Seq<char> {
    "<li>"@
        + rel_type
        + ": <a href=\""@
        + url
        + "\" target=\"_blank\" rel=\"noreferrer noopener\">"@
        + url
        + "</a></li>"@
}

/// Markup of one external link, as a list entry: the relation type, then the URL as a link.
pub fn link_markup(rel_type: &str, url: &str) -> (out: String)
    ensures
        out@ == link_markup_view(rel_type@, url@),
{
    let mut out = String::from_str("<li>");
    out.append(rel_type);
    out.append(": <a href=\"");
    out.append(url);
    out.append("\" target=\"_blank\" rel=\"noreferrer noopener\">");
    out.append(url);
    out.append("</a></li>");
    assert(out@ =~= link_markup_view(rel_type@, url@));
    out
}

/// Markup of the block that lists where a release is available, around its entries.
pub open spec fn link_list_markup_view(entries: Seq<char>) -> Seq<char> {
    "<div>\n                            <h4>Available at: </h4>\n                            <ul>"@
        + entries
        + "</ul>\n                        </div>"@
}

/// Markup of the block that lists where a release is available, around its entries.
pub fn link_list_markup(entries: &str) -> (out: String)
    ensures
        out@ == link_list_markup_view(entries@),
{
    let mut out = String::from_str("<div>\n                            <h4>Available at: </h4>\n                            <ul>");
    out.append(entries);
    out.append("</ul>\n                        </div>");
    assert(out@ =~= link_list_markup_view(entries@));
    out
}

/// Markup of an entry's description: thumbnail, artist credit and links.
pub open spec fn description_markup_view(image: Seq<char>, artist: Seq<char>, links: Seq<char>) -> Seq<char> {
    "<div>\n                        "@
        + image
        + "\n                        <h3>By "@
        + artist
        + "</h3>\n                        "@
        + links
        + "\n                    </div>"@
}

/// Markup of an entry's description: thumbnail, artist credit and links.
pub fn description_markup(image: &str, artist: &str, links: &str) -> (out: String)
    ensures
        out@ == description_markup_view(image@, artist@, links@),
{
    let mut out = String::from_str("<div>\n                        ");
    out.append(image);
    out.append("\n                        <h3>By ");
    out.append(artist);
    out.append("</h3>\n                        ");
    out.append(links);
    out.append("\n                    </div>");
    assert(out@ =~= description_markup_view(image@, artist@, links@));
    out
}

/// Markup of an entry's content for a release by one artist.
pub open spec fn single_artist_markup_view(permalink: Seq<char>, name: Seq<char>, artist_url: Seq<char>, artist: Seq<char>, art: Seq<char>, alt: Seq<char>) -> Seq<char> {
    "<div>\n                            <h1><a href=\""@
        + permalink
        + "\" rel=\"noreferrer noopener\">"@
        + name
        + "</a> </h1>\n                            <h3>By <a href=\""@
        + artist_url
        + "\" rel=\"noreferrer noopener\">"@
        + artist
        + "</a></h3>\n                            <div><img src=\""@
        + art
        + "\" alt=\""@
        + alt
        + "\" width=\"500px\" height=\"500px\" /></div>\n                        </div>"@
}

/// Markup of an entry's content for a release by one artist.
pub fn single_artist_markup(permalink: &str, name: &str, artist_url: &str, artist: &str, art: &str, alt: &str) -> (out: String)
    ensures
        out@ == single_artist_markup_view(permalink@, name@, artist_url@, artist@, art@, alt@),
{
    let mut out = String::from_str("<div>\n                            <h1><a href=\"");
    out.append(permalink);
    out.append("\" rel=\"noreferrer noopener\">");
    out.append(name);
    out.append("</a> </h1>\n                            <h3>By <a href=\"");
    out.append(artist_url);
    out.append("\" rel=\"noreferrer noopener\">");
    out.append(artist);
    out.append("</a></h3>\n                            <div><img src=\"");
    out.append(art);
    out.append("\" alt=\"");
    out.append(alt);
    out.append("\" width=\"500px\" height=\"500px\" /></div>\n                        </div>");
    assert(out@ =~= single_artist_markup_view(permalink@, name@, artist_url@, artist@, art@, alt@));
    out
}

/// Markup of one artist of a release, as a list entry that links to the artist.
pub open spec fn artist_markup_view(artist_url: Seq<char>) -> Seq<char> {
    "<li><a href=\""@
        + artist_url
        + "\" rel=\"noreferrer noopener\">"@
        + artist_url
        + "</a></li>"@
}

/// Markup of one artist of a release, as a list entry that links to the artist.
pub fn artist_markup(artist_url: &str) -> (out: String)
    ensures
        out@ == artist_markup_view(artist_url@),
{
    let mut out = String::from_str("<li><a href=\"");
    out.append(artist_url);
    out.append("\" rel=\"noreferrer noopener\">");
    out.append(artist_url);
    out.append("</a></li>");
    assert(out@ =~= artist_markup_view(artist_url@));
    out
}

/// Markup of an entry's content for a release by no or several artists.
pub open spec fn several_artists_markup_view(permalink: Seq<char>, name: Seq<char>, artist: Seq<char>, artists: Seq<char>, art: Seq<char>, alt: Seq<char>) -> Seq<char> {
    "<div>\n                            <h1><a href=\""@
        + permalink
        + "\" rel=\"noreferrer noopener\">"@
        + name
        + "</a> </h1>\n                            <h3>By "@
        + artist
        + "</h3>\n                            <div><ul>"@
        + artists
        + "</ul></div>\n                            <div><img src=\""@
        + art
        + "\" alt=\""@
        + alt
        + "\" width=\"500px\" height=\"500px\" /></div>\n                        </div>"@
}

/// Markup of an entry's content for a release by no or several artists.
pub fn several_artists_markup(permalink: &str, name: &str, artist: &str, artists: &str, art: &str, alt: &str) -> (out: String)
    ensures
        out@ == several_artists_markup_view(permalink@, name@, artist@, artists@, art@, alt@),
{
    let mut out = String::from_str("<div>\n                            <h1><a href=\"");
    out.append(permalink);
    out.append("\" rel=\"noreferrer noopener\">");
    out.append(name);
    out.append("</a> </h1>\n                            <h3>By ");
    out.append(artist);
    out.append("</h3>\n                            <div><ul>");
    out.append(artists);
    out.append("</ul></div>\n                            <div><img src=\"");
    out.append(art);
    out.append("\" alt=\"");
    out.append(alt);
    out.append("\" width=\"500px\" height=\"500px\" /></div>\n                        </div>");
    assert(out@ =~= several_artists_markup_view(permalink@, name@, artist@, artists@, art@, alt@));
    out
}

/// The items joined by `sep`: nothing for no item, and one separator between
/// each two neighbours.
pub open spec fn joined(items: Seq<Seq<char>>, sep: Seq<char>) -> Seq<char>
    decreases items.len(),
{
    if items.len() == 0 {
        Seq::empty()
    } else if items.len() == 1 {
        items[0]
    } else {
        joined(items.drop_last(), sep) + sep + items.last()
    }
}

/// Joins the lines with a line feed between each two.
pub fn join_lines(lines: &Vec<String>) -> (out: String)
    ensures
        out@ == joined(strings_view(lines@), "\n"@),
{
    let mut out = String::new();
    let mut i: usize = 0;
    while i < lines.len()
        invariant
            i <= lines.len(),
            out@ == joined(strings_view(lines@).take(i as int), "\n"@),
        decreases lines.len() - i,
    {
        let ghost all = strings_view(lines@);
        assert(all.take(i + 1).drop_last() =~= all.take(i as int));
        assert(all.take(i + 1).last() == lines[i as int]@);
        if i > 0 {
            out.append("\n");
        }
        out.append(lines[i].as_str());
        assert(out@ =~= joined(all.take(i + 1), "\n"@));
        i += 1;
    }
    assert(strings_view(lines@).take(i as int) =~= strings_view(lines@));
    out
}

} // verus!
