//! Flat storage encoding of external links.
//!
//! A sequence of links is stored as one text field: every relation type and
//! every URL is a field, and neighbouring fields are separated by one
//! zero-width space. The same character separates the two halves of a link
//! and two successive links, so the structure is recovered by taking the
//! fields two at a time. The scheme relies on the delimiter being absent from
//! relation types and URLs.

use vstd::prelude::*;
use vstd::string::*;

verus! {

/// The delimiter between stored fields, as text.
pub const ZWSP: &'static str = "\u{200b}";

/// One typed link of a release: a relation type and the URL it points to.
#[derive(Debug)]
pub struct ExternalLink {
    pub rel_type: String,
    pub url: String,
}

impl View for ExternalLink {
    type V = (Seq<char>, Seq<char>);

    open spec fn view(&self) -> (Seq<char>, Seq<char>) {
        (self.rel_type@, self.url@)
    }
}

/// The links of a vector, each as a pair of character sequences.
pub open spec fn links_view(links: Seq<ExternalLink>) -> Seq<(Seq<char>, Seq<char>)> {
    links.map_values(|l: ExternalLink| l@)
}

/// The delimiter character.
pub open spec fn delimiter() -> char {
    '\u{200b}'
}

/// Whether the delimiter is absent from `text`.
pub open spec fn delimiter_free(text: Seq<char>) -> bool {
    forall|i: int| 0 <= i < text.len() ==> text[i] != delimiter()
}

/// Whether the delimiter is absent from both halves of a link.
pub open spec fn link_delimiter_free(link: (Seq<char>, Seq<char>)) -> bool {
    delimiter_free(link.0) && delimiter_free(link.1)
}

/// Whether the delimiter is absent from both halves of every link.
pub open spec fn links_delimiter_free(links: Seq<(Seq<char>, Seq<char>)>) -> bool {
    forall|i: int| 0 <= i < links.len() ==> link_delimiter_free(#[trigger] links[i])
}

/// One link as stored: relation type, delimiter, URL.
pub open spec fn encoded_pair(link: (Seq<char>, Seq<char>)) -> Seq<char> {
    link.0 + seq![delimiter()] + link.1
}

/// The stored text of a sequence of links: the stored links, joined by the
/// delimiter.
pub open spec fn encoded(links: Seq<(Seq<char>, Seq<char>)>) -> Seq<char>
    decreases links.len(),
{
    if links.len() == 0 {
        Seq::empty()
    } else if links.len() == 1 {
        encoded_pair(links[0])
    } else {
        encoded(links.drop_last()) + seq![delimiter()] + encoded_pair(links.last())
    }
}

/// The fields of `text`: the maximal runs between delimiters, in order.
/// A text with `n` delimiters has `n + 1` fields, some of them possibly empty.
pub open spec fn split_fields(text: Seq<char>) -> Seq<Seq<char>>
    decreases text.len(),
{
    if text.len() == 0 {
        seq![Seq::empty()]
    } else {
        let before = split_fields(text.drop_last());
        if text.last() == delimiter() {
            before.push(Seq::empty())
        } else {
            before.update(before.len() - 1, before.last().push(text.last()))
        }
    }
}

/// The fields taken two at a time.
pub open spec fn paired(fields: Seq<Seq<char>>) -> Seq<(Seq<char>, Seq<char>)> {
    Seq::new(fields.len() / 2, |i: int| (fields[2 * i], fields[2 * i + 1]))
}

/// The links that a stored text holds: none for the empty text, otherwise its
/// fields two at a time. A text with an odd number of fields holds no
/// sequence of links.
pub open spec fn decoded(text: Seq<char>) -> Option<Seq<(Seq<char>, Seq<char>)>> {
    if text.len() == 0 {
        Some(Seq::empty())
    } else if split_fields(text).len() % 2 == 0 {
        Some(paired(split_fields(text)))
    } else {
        None
    }
}

/// The views of a vector of strings.
pub open spec fn strings_view(strings: Seq<String>) -> Seq<Seq<char>> {
    strings.map_values(|s: String| s@)
}

pub proof fn lemma_split_fields_nonempty(text: Seq<char>)
    ensures
        split_fields(text).len() >= 1,
    decreases text.len(),
{
    if text.len() > 0 {
        lemma_split_fields_nonempty(text.drop_last());
    }
}

/// Stores `links` as one text field.
pub fn encode_links(links: &Vec<ExternalLink>) -> (out: String)
    ensures
        out@ == encoded(links_view(links@)),
{
    let mut out = String::new();
    let mut i: usize = 0;
    proof {
        reveal_strlit("\u{200b}");
    }
    assert(ZWSP@ =~= seq![delimiter()]);
    while i < links.len()
        invariant
            i <= links.len(),
            ZWSP@ == seq![delimiter()],
            out@ == encoded(links_view(links@).take(i as int)),
        decreases links.len() - i,
    {
        let ghost all = links_view(links@);
        assert(all.take(i + 1).drop_last() =~= all.take(i as int));
        assert(all.take(i + 1).last() == links[i as int]@);
        if i > 0 {
            out.append(ZWSP);
        }
        out.append(links[i].rel_type.as_str());
        out.append(ZWSP);
        out.append(links[i].url.as_str());
        assert(out@ =~= encoded(all.take(i + 1)));
        i += 1;
    }
    assert(links_view(links@).take(i as int) =~= links_view(links@));
    out
}

/// Reads the links back from a stored text. Returns `None` exactly when the
/// text is not empty and has an odd number of fields.
pub fn decode_links(text: &str) -> (out: Option<Vec<ExternalLink>>)
    ensures
        match out {
            Some(links) => decoded(text@) == Some(links_view(links@)),
            None => decoded(text@) is None,
        },
{
    let n: usize = text.unicode_len();
    if n == 0 {
        let none: Vec<ExternalLink> = Vec::new();
        assert(links_view(none@) =~= Seq::empty());
        return Some(none);
    }
    let mut fields: Vec<String> = Vec::new();
    let mut start: usize = 0;
    let mut i: usize = 0;
    assert(text@.take(0) =~= Seq::empty());
    assert(split_fields(text@.take(0)) =~= strings_view(fields@).push(text@.subrange(0, 0)));
    while i < n
        invariant
            n == text@.len(),
            start <= i <= n,
            split_fields(text@.take(i as int)) == strings_view(fields@).push(
                text@.subrange(start as int, i as int),
            ),
        decreases n - i,
    {
        let c = text.get_char(i);
        let ghost before = strings_view(fields@);
        assert(text@.take(i + 1).drop_last() =~= text@.take(i as int));
        assert(text@.take(i + 1).last() == c);
        if c == '\u{200b}' {
            let ghost field = text@.subrange(start as int, i as int);
            fields.push(String::from_str(text.substring_char(start, i)));
            start = i + 1;
            assert(strings_view(fields@) =~= before.push(field));
            assert(text@.subrange(start as int, i + 1) =~= Seq::empty());
        } else {
            assert(text@.subrange(start as int, i + 1) =~= text@.subrange(
                start as int,
                i as int,
            ).push(c));
            assert(split_fields(text@.take(i + 1)) =~= before.push(
                text@.subrange(start as int, i + 1),
            ));
        }
        i += 1;
    }
    assert(text@.take(n as int) =~= text@);
    let ghost before = strings_view(fields@);
    fields.push(String::from_str(text.substring_char(start, n)));
    assert(strings_view(fields@) =~= before.push(text@.subrange(start as int, n as int)));
    assert(strings_view(fields@) == split_fields(text@));
    let count: usize = fields.len();
    if count % 2 != 0 {
        return None;
    }
    let mut links: Vec<ExternalLink> = Vec::new();
    let mut k: usize = 0;
    while k < count
        invariant
            count == fields.len(),
            count % 2 == 0,
            k % 2 == 0,
            k <= count,
            links.len() == k / 2,
            forall|j: int|
                0 <= j < links.len() ==> (#[trigger] links[j])@ == (
                    fields[2 * j]@,
                    fields[2 * j + 1]@,
                ),
        decreases count - k,
    {
        let link = ExternalLink { rel_type: fields[k].clone(), url: fields[k + 1].clone() };
        links.push(link);
        k += 2;
    }
    assert(links_view(links@) =~= paired(strings_view(fields@)));
    Some(links)
}

/// Appending delimiter-free text to a text extends its last field.
pub proof fn lemma_split_fields_append(text: Seq<char>, tail: Seq<char>)
    requires
        delimiter_free(tail),
    ensures
        split_fields(text).len() >= 1,
        split_fields(text + tail) == split_fields(text).update(
            split_fields(text).len() - 1,
            split_fields(text).last() + tail,
        ),
    decreases tail.len(),
{
    lemma_split_fields_nonempty(text);
    let fields = split_fields(text);
    if tail.len() == 0 {
        assert(text + tail =~= text);
        assert(fields.last() + tail =~= fields.last());
        assert(fields.update(fields.len() - 1, fields.last()) =~= fields);
    } else {
        let shorter = tail.drop_last();
        assert(delimiter_free(shorter)) by {
            assert forall|i: int| 0 <= i < shorter.len() implies shorter[i] != delimiter() by {
                assert(shorter[i] == tail[i]);
            }
        }
        lemma_split_fields_append(text, shorter);
        assert((text + tail).drop_last() =~= text + shorter);
        assert((text + tail).last() == tail.last());
        assert(tail.last() == tail[tail.len() - 1]);
        assert(fields.last() + tail =~= (fields.last() + shorter).push(tail.last()));
        assert(split_fields(text + tail) =~= fields.update(
            fields.len() - 1,
            fields.last() + tail,
        ));
    }
}

/// A delimiter followed by delimiter-free text adds that text as one field.
pub proof fn lemma_split_fields_delimited(text: Seq<char>, tail: Seq<char>)
    requires
        delimiter_free(tail),
    ensures
        split_fields(text + seq![delimiter()] + tail) == split_fields(text).push(tail),
{
    let cut = text + seq![delimiter()];
    assert(cut.drop_last() =~= text);
    assert(cut.last() == delimiter());
    lemma_split_fields_append(cut, tail);
    assert(Seq::<char>::empty() + tail =~= tail);
    assert(split_fields(cut + tail) =~= split_fields(text).push(tail));
}

/// The fields of a stored sequence of delimiter-free links are the halves of
/// the links, in order.
pub proof fn lemma_split_fields_of_encoded(links: Seq<(Seq<char>, Seq<char>)>)
    requires
        links.len() > 0,
        links_delimiter_free(links),
    ensures
        split_fields(encoded(links)).len() == 2 * links.len(),
        forall|i: int|
            0 <= i < links.len() ==> split_fields(encoded(links))[2 * i] == (#[trigger] links[i]).0
                && split_fields(encoded(links))[2 * i + 1] == links[i].1,
    decreases links.len(),
{
    let last = links.last();
    assert(link_delimiter_free(links[links.len() - 1]));
    if links.len() == 1 {
        let none = Seq::<char>::empty();
        lemma_split_fields_append(none, last.0);
        assert(none + last.0 =~= last.0);
        assert(split_fields(last.0) =~= seq![last.0]);
        lemma_split_fields_delimited(last.0, last.1);
    } else {
        let rest = links.drop_last();
        assert(links_delimiter_free(rest)) by {
            assert forall|i: int| 0 <= i < rest.len() implies link_delimiter_free(
                #[trigger] rest[i],
            ) by {
                assert(rest[i] == links[i]);
            }
        }
        lemma_split_fields_of_encoded(rest);
        let head = encoded(rest);
        lemma_split_fields_delimited(head, last.0);
        lemma_split_fields_delimited(head + seq![delimiter()] + last.0, last.1);
        assert(encoded(links) =~= head + seq![delimiter()] + last.0 + seq![delimiter()] + last.1);
        assert forall|i: int| 0 <= i < links.len() implies split_fields(encoded(links))[2 * i] == (
        #[trigger] links[i]).0 && split_fields(encoded(links))[2 * i + 1] == links[i].1 by {
            if i < rest.len() {
                assert(rest[i] == links[i]);
            }
        }
    }
}

/// Storing links and reading them back yields the same ordered sequence of
/// links, provided that no relation type and no URL holds the delimiter.
pub proof fn lemma_links_round_trip(links: Seq<(Seq<char>, Seq<char>)>)
    requires
        links_delimiter_free(links),
    ensures
        decoded(encoded(links)) == Some(links),
{
    if links.len() == 0 {
        assert(links =~= Seq::empty());
    } else {
        lemma_split_fields_of_encoded(links);
        let text = encoded(links);
        if text.len() == 0 {
            assert(split_fields(text).len() == 1);
        }
        assert(paired(split_fields(text)) =~= links);
    }
}

} // verus!
