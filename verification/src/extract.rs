//! Reading the URLs out of a remote listing: one remote per line, the URL as
//! the second field of the line.

use vstd::prelude::*;
use vstd::slice::slice_subrange;
use vstd::string::StrSliceExecFns;
use vstd::string::StringExecFns;
use crate::text::{
    chars_of, find_char, lemma_position_found, lemma_position_is, next_where, position, scan,
};

verus! {

/// A set of URLs that remembers the order in which they were first seen.
#[derive(Debug)]
pub struct UrlSet {
    items: Vec<String>,
}

impl View for UrlSet {
    type V = Seq<Seq<char>>;

    /// The URLs in the order of enumeration.
    closed spec fn view(&self) -> Seq<Seq<char>> {
        self.items@.map_values(|s: String| s@)
    }
}

/// `items` with `item` added at the end unless it is already there.
pub open spec fn with_item(items: Seq<Seq<char>>, item: Seq<char>) -> Seq<Seq<char>> {
    if items.contains(item) {
        items
    } else {
        items.push(item)
    }
}

impl UrlSet {
    /// No URL occurs twice.
    pub open spec fn wf(&self) -> bool {
        self@.no_duplicates()
    }

    /// The empty set.
    pub fn new() -> (out: Self)
        ensures
            out.wf(),
            out@ == Seq::<Seq<char>>::empty(),
    {
        let out = UrlSet { items: Vec::new() };
        assert(out@ =~= Seq::<Seq<char>>::empty());
        out
    }

    /// The number of URLs.
    pub fn len(&self) -> (n: usize)
        ensures
            n == self@.len(),
    {
        self.items.len()
    }

    /// The URL at place `index` of the enumeration, if there is one.
    pub fn get(&self, index: usize) -> (out: Option<&str>)
        ensures
            match out {
                Some(url) => index < self@.len() && url@ == self@[index as int],
                None => index >= self@.len(),
            },
    {
        if index < self.items.len() {
            Some(self.items[index].as_str())
        } else {
            None
        }
    }

    /// Whether `url` is in the set.
    pub fn contains(&self, url: &str) -> (b: bool)
        ensures
            b == self@.contains(url@),
    {
        let wanted = String::from_str(url);
        let mut i: usize = 0;
        while i < self.items.len()
            invariant
                i <= self.items@.len(),
                wanted@ == url@,
                forall|j: int| 0 <= j < i ==> self@[j] != url@,
            decreases self.items@.len() - i,
        {
            if self.items[i] == wanted {
                assert(self@[i as int] == url@);
                return true;
            }
            i += 1;
        }
        false
    }

    /// Adds `url` unless it is already in the set, and says whether it was
    /// added. The URLs already there keep their places.
    pub fn insert(&mut self, url: String) -> (added: bool)
        requires
            old(self).wf(),
        ensures
            final(self).wf(),
            final(self)@ == with_item(old(self)@, url@),
            added == !old(self)@.contains(url@),
    {
        if self.contains(url.as_str()) {
            false
        } else {
            self.items.push(url);
            assert(self@ =~= old(self)@.push(url@));
            true
        }
    }
}

/// The second of the fields of `line` that white space separates, if it has
/// two.
pub open spec fn second_field(line: Seq<char>) -> Option<Seq<char>> {
    let first_start = next_where(line, 0, false);
    let first_end = next_where(line, first_start, true);
    let start = next_where(line, first_end, false);
    let end = next_where(line, start, true);
    if start < line.len() {
        Some(line.subrange(start, end))
    } else {
        None
    }
}

/// The lines of `text` from index `from` on: what stands between line feeds.
/// A line feed at the very end starts no further line.
pub open spec fn lines_from(text: Seq<char>, from: int) -> Seq<Seq<char>>
    decreases text.len() + 1 - from,
    when 0 <= from
    via lines_from_decreases
{
    if from >= text.len() {
        Seq::empty()
    } else {
        let end = position(text, '\n', from);
        seq![text.subrange(from, end)] + lines_from(text, end + 1)
    }
}

#[via_fn]
proof fn lines_from_decreases(text: Seq<char>, from: int) {
    if from < text.len() {
        lemma_position_found(text, '\n', from);
    }
}

/// The lines of `text`.
pub open spec fn lines(text: Seq<char>) -> Seq<Seq<char>> {
    lines_from(text, 0)
}

/// The second fields of `lines`, in order; a line with fewer than two fields
/// gives none.
pub open spec fn fields(lines: Seq<Seq<char>>) -> Seq<Seq<char>>
    decreases lines.len(),
{
    if lines.len() == 0 {
        Seq::empty()
    } else {
        match second_field(lines.last()) {
            Some(field) => fields(lines.drop_last()).push(field),
            None => fields(lines.drop_last()),
        }
    }
}

/// `items` without repetitions: each item at the place of its first
/// occurrence.
pub open spec fn distinct(items: Seq<Seq<char>>) -> Seq<Seq<char>>
    decreases items.len(),
{
    if items.len() == 0 {
        Seq::empty()
    } else {
        with_item(distinct(items.drop_last()), items.last())
    }
}

/// The URLs that the listing `text` names: the second field of each line that
/// has one, each URL once, in the order of first occurrence.
pub open spec fn spec_urls(text: Seq<char>) -> Seq<Seq<char>> {
    distinct(fields(lines(text)))
}

/// Where the second field of `line` stands, if it has two fields.
pub fn find_second_field(line: &[char]) -> (out: Option<(usize, usize)>)
    ensures
        match out {
            Some((start, end)) => start < end <= line@.len() && second_field(line@) == Some(
                line@.subrange(start as int, end as int),
            ),
            None => second_field(line@) is None,
        },
{
    let first_start = scan(line, 0, false);
    let first_end = scan(line, first_start, true);
    let start = scan(line, first_end, false);
    let end = scan(line, start, true);
    if start < line.len() {
        Some((start, end))
    } else {
        None
    }
}

/// Collects the URLs of a remote listing: the second field of every line,
/// each URL once. Lines with fewer than two fields are passed over.
pub fn urls_from_output(output: &str) -> (urls: UrlSet)
    ensures
        urls.wf(),
        urls@ == spec_urls(output@),
{
    let chars = chars_of(output);
    let len = chars.len();
    let mut urls = UrlSet::new();
    let mut pos: usize = 0;
    let ghost mut done: Seq<Seq<char>> = Seq::empty();
    while pos < len
        invariant
            len == chars@.len(),
            chars@ == output@,
            pos <= len,
            urls.wf(),
            done + lines_from(output@, pos as int) == lines(output@),
            urls@ == distinct(fields(done)),
        decreases len - pos,
    {
        let end = find_char(chars.as_slice(), '\n', pos, len);
        let line = slice_subrange(chars.as_slice(), pos, end);
        proof {
            let text = output@;
            lemma_position_is(text, '\n', pos as int, end as int);
            assert(done.push(line@) + lines_from(text, end + 1) =~= done + lines_from(
                text,
                pos as int,
            ));
            assert(done.push(line@).drop_last() =~= done);
        }
        match find_second_field(line) {
            Some((start, stop)) => {
                let url = output.substring_char(pos + start, pos + stop);
                assert(url@ =~= line@.subrange(start as int, stop as int));
                assert(fields(done.push(line@)).drop_last() =~= fields(done));
                urls.insert(String::from_str(url));
            },
            None => {},
        }
        proof {
            done = done.push(line@);
        }
        pos = if end < len {
            end + 1
        } else {
            len
        };
    }
    assert(done =~= lines(output@));
    urls
}

/// `distinct` keeps every item and keeps it once.
pub proof fn lemma_distinct(items: Seq<Seq<char>>)
    ensures
        distinct(items).no_duplicates(),
        forall|u: Seq<char>| distinct(items).contains(u) <==> items.contains(u),
    decreases items.len(),
{
    if items.len() > 0 {
        let front = items.drop_last();
        let last = items.last();
        let kept = distinct(front);
        lemma_distinct(front);
        assert forall|u: Seq<char>| distinct(items).contains(u) <==> items.contains(u) by {
            if items.contains(u) {
                let i = choose|i: int| 0 <= i < items.len() && items[i] == u;
                if i < front.len() {
                    assert(front[i] == u);
                    assert(front.contains(u));
                    assert(kept.contains(u));
                    let k = choose|k: int| 0 <= k < kept.len() && kept[k] == u;
                    assert(with_item(kept, last)[k] == u);
                } else if !kept.contains(last) {
                    assert(kept.push(last)[kept.len() as int] == u);
                }
            }
            if distinct(items).contains(u) {
                let k = choose|k: int| 0 <= k < distinct(items).len() && distinct(items)[k] == u;
                if k < kept.len() {
                    assert(kept[k] == u);
                    assert(kept.contains(u));
                    assert(front.contains(u));
                    let i = choose|i: int| 0 <= i < front.len() && front[i] == u;
                    assert(items[i] == u);
                } else {
                    assert(u == last);
                    assert(items[items.len() - 1] == u);
                }
            }
        }
    }
}

/// A URL is among the fields of some lines exactly if it is the second field
/// of one of them.
pub proof fn lemma_fields(lines: Seq<Seq<char>>, url: Seq<char>)
    ensures
        fields(lines).contains(url) <==> exists|i: int|
            0 <= i < lines.len() && #[trigger] second_field(lines[i]) == Some(url),
    decreases lines.len(),
{
    if lines.len() > 0 {
        let front = lines.drop_last();
        let last = lines.last();
        lemma_fields(front, url);
        let all = fields(lines);
        let before = fields(front);
        if all.contains(url) {
            let k = choose|k: int| 0 <= k < all.len() && all[k] == url;
            if k < before.len() {
                assert(before[k] == url);
                assert(before.contains(url));
                let i = choose|i: int|
                    0 <= i < front.len() && #[trigger] second_field(front[i]) == Some(url);
                assert(second_field(lines[i]) == Some(url));
            } else {
                assert(second_field(lines[lines.len() - 1]) == Some(url));
            }
        }
        if exists|i: int| 0 <= i < lines.len() && #[trigger] second_field(lines[i]) == Some(url) {
            let i = choose|i: int|
                0 <= i < lines.len() && #[trigger] second_field(lines[i]) == Some(url);
            if i < front.len() {
                assert(second_field(front[i]) == Some(url));
                assert(before.contains(url));
                let k = choose|k: int| 0 <= k < before.len() && before[k] == url;
                assert(all[k] == url);
            } else {
                assert(all[all.len() - 1] == url);
            }
        }
    }
}

/// The URLs of a listing are a set: none occurs twice, however many lines
/// name it, and a URL is among them exactly if it is the second field of some
/// line.
pub proof fn lemma_urls_are_the_second_fields(text: Seq<char>)
    ensures
        spec_urls(text).no_duplicates(),
        forall|url: Seq<char>|
            spec_urls(text).contains(url) <==> exists|i: int|
                0 <= i < lines(text).len() && #[trigger] second_field(lines(text)[i]) == Some(
                    url,
                ),
{
    lemma_distinct(fields(lines(text)));
    assert forall|url: Seq<char>|
        spec_urls(text).contains(url) <==> exists|i: int|
            0 <= i < lines(text).len() && #[trigger] second_field(lines(text)[i]) == Some(
                url,
            ) by {
        lemma_fields(lines(text), url);
    }
}

} // verus!
