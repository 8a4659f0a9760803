//! The header block of a message: an association list from names to values
//! that keeps the order of first insertion and holds each name once.

use crate::text::{
    chars_of, find_separator, first_separator, opt_text, substring, text_or_empty, trim,
    trim_bounds,
};
use vstd::prelude::*;
use vstd::slice::slice_subrange;
use vstd::string::StringExecFns;

verus! {

/// A header as the contracts see it: its name and its value, either of
/// which may be absent.
pub type Entry = (Option<Seq<char>>, Option<Seq<char>>);

/// The first position at or after `from` whose entry is named `name`.
pub open spec fn find_name(entries: Seq<Entry>, name: Option<Seq<char>>, from: int) -> Option<int>
    decreases entries.len() - from,
{
    if from < 0 || from >= entries.len() {
        None
    } else if entries[from].0 == name {
        Some(from)
    } else {
        find_name(entries, name, from + 1)
    }
}

/// The value stored under `name`, where the name occurs.
pub open spec fn lookup(entries: Seq<Entry>, name: Option<Seq<char>>) -> Option<Option<Seq<char>>> {
    match find_name(entries, name, 0) {
        Some(i) => Some(entries[i].1),
        None => None,
    }
}

/// The entries after `value` was stored under `name`: a name that is
/// already there keeps its place and takes the new value, a new name goes
/// to the end.
pub open spec fn with_entry(
    entries: Seq<Entry>,
    name: Option<Seq<char>>,
    value: Option<Seq<char>>,
) -> Seq<Entry> {
    match find_name(entries, name, 0) {
        Some(i) => entries.update(i, (name, value)),
        None => entries.push((name, value)),
    }
}

/// No name occurs twice.
pub open spec fn distinct_names(entries: Seq<Entry>) -> bool {
    forall|i: int, j: int| 0 <= i < j < entries.len() ==> entries[i].0 != entries[j].0
}

/// `find_name` gives the least position that holds the name.
pub proof fn lemma_find_name(entries: Seq<Entry>, name: Option<Seq<char>>, from: int)
    requires
        0 <= from,
    ensures
        match find_name(entries, name, from) {
            Some(p) => from <= p < entries.len() && entries[p].0 == name && forall|k: int|
                from <= k < p ==> entries[k].0 != name,
            None => forall|k: int| from <= k < entries.len() ==> entries[k].0 != name,
        },
    decreases entries.len() - from,
{
    if from < entries.len() && entries[from].0 != name {
        lemma_find_name(entries, name, from + 1);
    }
}

/// Storing a value keeps the names distinct.
pub proof fn lemma_with_entry_distinct(
    entries: Seq<Entry>,
    name: Option<Seq<char>>,
    value: Option<Seq<char>>,
)
    requires
        distinct_names(entries),
    ensures
        distinct_names(with_entry(entries, name, value)),
{
    lemma_find_name(entries, name, 0);
}

/// The last value stored under a name is the one found, and storing it
/// leaves every other name as it was.
pub proof fn lemma_lookup_with_entry(
    entries: Seq<Entry>,
    name: Option<Seq<char>>,
    value: Option<Seq<char>>,
    other: Option<Seq<char>>,
)
    ensures
        lookup(with_entry(entries, name, value), name) == Some(value),
        other != name ==> lookup(with_entry(entries, name, value), other) == lookup(
            entries,
            other,
        ),
{
    let after = with_entry(entries, name, value);
    lemma_find_name(entries, name, 0);
    lemma_find_name(after, name, 0);
    lemma_find_name(entries, other, 0);
    lemma_find_name(after, other, 0);
    let at = match find_name(entries, name, 0) {
        Some(i) => i,
        None => entries.len() as int,
    };
    assert(after.len() > at && after[at] == (name, value));
    assert forall|k: int| 0 <= k < after.len() && k != at implies after[k] == entries[k] by {}
    match find_name(after, name, 0) {
        Some(p) => {
            if p < at {
                assert(after[p] == entries[p]);
            }
        },
        None => {},
    }
    if other != name {
        match (find_name(entries, other, 0), find_name(after, other, 0)) {
            (Some(p), Some(q)) => {
                assert(after[p] == entries[p]);
                assert(after[q] == entries[q]);
            },
            (Some(p), None) => {
                assert(after[p] == entries[p]);
            },
            (None, Some(q)) => {
                assert(after[q] == entries[q]);
            },
            (None, None) => {},
        }
    }
}

/// One header as it is written out: the name, a colon and a space, the
/// value, and the end of the line.
pub open spec fn header_line(e: Entry) -> Seq<char> {
    text_or_empty(e.0) + seq![':', ' '] + text_or_empty(e.1) + seq!['\r', '\n']
}

/// The headers as they are written out, one line each, in order.
pub open spec fn header_block(entries: Seq<Entry>) -> Seq<char>
    decreases entries.len(),
{
    if entries.len() == 0 {
        Seq::empty()
    } else {
        header_block(entries.drop_last()) + header_line(entries.last())
    }
}

/// The name and the value that a header line holds: what stands before the
/// first separator and what stands after it; a line without a separator is
/// a name without a value.
pub open spec fn split_entry(line: Seq<char>) -> Entry {
    match find_separator(line, 0) {
        Some(i) => (Some(line.take(i)), Some(line.skip(i + 2))),
        None => (Some(line), None),
    }
}

/// The header that a line of the header block holds once it is trimmed;
/// `None` for the blank line that ends the block.
pub open spec fn header_entry(line: Seq<char>) -> Option<Entry> {
    if trim(line).len() == 0 {
        None
    } else {
        Some(split_entry(trim(line)))
    }
}

/// Reads one line of the header block.
pub fn parse_header_line(line: &str) -> (r: Option<(Option<String>, Option<String>)>)
    ensures
        match r {
            Some((name, value)) => header_entry(line@) == Some((opt_text(name), opt_text(value))),
            None => header_entry(line@) is None,
        },
{
    let chars = chars_of(line);
    let (a, b) = trim_bounds(chars.as_slice());
    if a == b {
        return None;
    }
    let trimmed = slice_subrange(chars.as_slice(), a, b);
    assert(trimmed@ == trim(line@));
    match first_separator(trimmed) {
        Some(p) => {
            let name = substring(line, a, a + p);
            let value = substring(line, a + p + 2, b);
            assert(name@ =~= trim(line@).take(p as int));
            assert(value@ =~= trim(line@).skip(p + 2));
            Some((Some(name), Some(value)))
        },
        None => {
            let name = substring(line, a, b);
            Some((Some(name), None))
        },
    }
}

/// Whether two optional strings hold the same text, or are both absent.
fn same_text(a: &Option<String>, b: &Option<String>) -> (r: bool)
    ensures
        r == (opt_text(*a) == opt_text(*b)),
{
    match (a, b) {
        (Some(x), Some(y)) => *x == *y,
        (None, None) => true,
        _ => false,
    }
}

/// The headers of a message.
pub struct HeaderMap {
    entries: Vec<(Option<String>, Option<String>)>,
}

impl View for HeaderMap {
    type V = Seq<Entry>;

    closed spec fn view(&self) -> Seq<Entry> {
        Seq::new(
            self.entries@.len(),
            |i: int| (opt_text(self.entries@[i].0), opt_text(self.entries@[i].1)),
        )
    }
}

impl HeaderMap {
    #[verifier::type_invariant]
    spec fn holds_each_name_once(&self) -> bool {
        distinct_names(self@)
    }

    /// A header block without entries.
    pub fn new() -> (m: HeaderMap)
        ensures
            m@ == Seq::<Entry>::empty(),
    {
        let m = HeaderMap { entries: Vec::new() };
        assert(m@ =~= Seq::<Entry>::empty());
        m
    }

    /// The number of entries; no name is counted twice.
    pub fn len(&self) -> (n: usize)
        ensures
            n == self@.len(),
            distinct_names(self@),
    {
        proof {
            use_type_invariant(self);
        }
        self.entries.len()
    }

    /// Where `name` stands among the entries.
    fn position(&self, name: &Option<String>) -> (r: Option<usize>)
        ensures
            match r {
                Some(i) => find_name(self@, opt_text(*name), 0) == Some(i as int) && i
                    < self.entries@.len(),
                None => find_name(self@, opt_text(*name), 0) is None,
            },
    {
        let n = self.entries.len();
        let mut i: usize = 0;
        while i < n
            invariant
                i <= n,
                n == self.entries@.len(),
                n == self@.len(),
                find_name(self@, opt_text(*name), i as int) == find_name(
                    self@,
                    opt_text(*name),
                    0,
                ),
            decreases n - i,
        {
            if same_text(&self.entries[i].0, name) {
                return Some(i);
            }
            i += 1;
        }
        None
    }

    /// Stores `value` under `name`. A name that is already there keeps its
    /// place and loses its old value.
    pub fn insert(&mut self, name: Option<String>, value: Option<String>)
        ensures
            final(self)@ == with_entry(old(self)@, opt_text(name), opt_text(value)),
            distinct_names(final(self)@),
    {
        proof {
            use_type_invariant(&*self);
            lemma_with_entry_distinct(self@, opt_text(name), opt_text(value));
        }
        let ghost before = self@;
        let found = self.position(&name);
        let mut taken = HeaderMap::new();
        core::mem::swap(self, &mut taken);
        let mut entries = taken.entries;
        match found {
            Some(i) => {
                entries.set(i, (name, value));
            },
            None => {
                entries.push((name, value));
            },
        }
        let ghost after = Seq::new(
            entries@.len(),
            |i: int| (opt_text(entries@[i].0), opt_text(entries@[i].1)),
        );
        assert(after =~= with_entry(before, opt_text(name), opt_text(value)));
        *self = HeaderMap { entries };
    }

    /// The value stored under `name`: `None` where the name does not occur,
    /// `Some(None)` where it occurs without a value.
    pub fn get(&self, name: &Option<String>) -> (r: Option<&Option<String>>)
        ensures
            match r {
                Some(v) => lookup(self@, opt_text(*name)) == Some(opt_text(*v)),
                None => lookup(self@, opt_text(*name)) is None,
            },
    {
        match self.position(name) {
            Some(i) => Some(&self.entries[i].1),
            None => None,
        }
    }

    /// The headers as text, one line each.
    pub fn render(&self) -> (s: String)
        ensures
            s@ == header_block(self@),
    {
        let mut out = String::new();
        let n = self.entries.len();
        let mut i: usize = 0;
        assert(self@.take(0) =~= Seq::<Entry>::empty());
        while i < n
            invariant
                i <= n,
                n == self.entries@.len(),
                n == self@.len(),
                out@ == header_block(self@.take(i as int)),
            decreases n - i,
        {
            let ghost before = out@;
            proof {
                reveal_strlit(": ");
                reveal_strlit("\r\n");
            }
            match &self.entries[i].0 {
                Some(name) => out.append(name.as_str()),
                None => {},
            }
            out.append(": ");
            match &self.entries[i].1 {
                Some(value) => out.append(value.as_str()),
                None => {},
            }
            out.append("\r\n");
            proof {
                let done = self@.take(i + 1);
                assert(done.drop_last() =~= self@.take(i as int));
                assert(done.last() == self@[i as int]);
                assert(out@ =~= before + header_line(self@[i as int]));
            }
            i += 1;
        }
        assert(self@.take(n as int) =~= self@);
        out
    }
}

/// The headers that a sequence of stored entries leaves behind: each entry
/// stored in turn, a later one replacing an earlier one of the same name.
pub open spec fn collect(entries: Seq<Entry>) -> Seq<Entry>
    decreases entries.len(),
{
    if entries.len() == 0 {
        Seq::empty()
    } else {
        with_entry(collect(entries.drop_last()), entries.last().0, entries.last().1)
    }
}

/// Whatever is collected holds each name once.
pub proof fn lemma_collect_distinct(entries: Seq<Entry>)
    ensures
        distinct_names(collect(entries)),
    decreases entries.len(),
{
    if entries.len() > 0 {
        lemma_collect_distinct(entries.drop_last());
        lemma_with_entry_distinct(
            collect(entries.drop_last()),
            entries.last().0,
            entries.last().1,
        );
    }
}

} // verus!
