//! The headers of an article: for each header name the contents of the lines
//! that carry it, in the order in which the lines were met.

use vstd::prelude::*;
use vstd::utf8::{encode_utf8, encode_utf8_decode_utf8};

verus! {

/// The mathematical value of [`Headers`]: from each name to the contents of
/// its lines in encounter order.
pub type Contents = Map<Seq<char>, Seq<Seq<char>>>;

/// The contents after one more header line: the content is appended to the
/// entry of its name, which is made where the name is new.
pub open spec fn add_line(m: Contents, name: Seq<char>, content: Seq<char>) -> Contents {
    if m.contains_key(name) {
        m.insert(name, m[name].push(content))
    } else {
        m.insert(name, seq![content])
    }
}

/// The contents that a sequence of header lines, each a name and a content,
/// adds up to.
pub open spec fn collect(lines: Seq<(Seq<char>, Seq<char>)>) -> Contents
    decreases lines.len(),
{
    if lines.len() == 0 {
        Map::empty()
    } else {
        add_line(collect(lines.drop_last()), lines.last().0, lines.last().1)
    }
}

/// The names after one more header line: a new name goes behind the others.
pub open spec fn add_name(names: Seq<Seq<char>>, name: Seq<char>) -> Seq<Seq<char>> {
    if names.contains(name) {
        names
    } else {
        names.push(name)
    }
}

/// The names of a sequence of header lines, each once, in the order in which
/// they first occur.
pub open spec fn first_seen(lines: Seq<(Seq<char>, Seq<char>)>) -> Seq<Seq<char>>
    decreases lines.len(),
{
    if lines.len() == 0 {
        seq![]
    } else {
        add_name(first_seen(lines.drop_last()), lines.last().0)
    }
}

/// The contents of the lines of `lines` that are named `name`, in the order
/// of `lines`.
pub open spec fn contents_of(lines: Seq<(Seq<char>, Seq<char>)>, name: Seq<char>) -> Seq<
    Seq<char>,
>
    decreases lines.len(),
{
    if lines.len() == 0 {
        seq![]
    } else if lines.last().0 == name {
        contents_of(lines.drop_last(), name).push(lines.last().1)
    } else {
        contents_of(lines.drop_last(), name)
    }
}

/// The sum of the lengths of all content lists of `m`; 0 for a map with
/// infinitely many names.
pub open spec fn total_lines(m: Contents) -> nat
    decreases m.dom().len(),
    when m.dom().finite()
{
    if m.dom().len() == 0 {
        0
    } else {
        let k = m.dom().choose();
        m[k].len() + total_lines(m.remove(k))
    }
}

/// The sum of [`total_lines`] may start at any name.
pub proof fn lemma_total_lines_remove(m: Contents, k: Seq<char>)
    requires
        m.dom().finite(),
        m.contains_key(k),
    ensures
        total_lines(m) == m[k].len() + total_lines(m.remove(k)),
    decreases m.dom().len(),
{
    let c = m.dom().choose();
    if c != k {
        lemma_total_lines_remove(m.remove(c), k);
        lemma_total_lines_remove(m.remove(k), c);
        assert(m.remove(c).remove(k) =~= m.remove(k).remove(c));
    }
}

/// One more line adds one to [`total_lines`], whether or not its name is new.
pub proof fn lemma_total_lines_add_line(m: Contents, name: Seq<char>, content: Seq<char>)
    requires
        m.dom().finite(),
    ensures
        add_line(m, name, content).dom().finite(),
        total_lines(add_line(m, name, content)) == total_lines(m) + 1,
{
    let after = add_line(m, name, content);
    lemma_total_lines_remove(after, name);
    assert(after.remove(name) =~= m.remove(name));
    if m.contains_key(name) {
        lemma_total_lines_remove(m, name);
    } else {
        assert(m.remove(name) =~= m);
    }
}

/// Grouping keeps the lines apart by name and in order: what [`collect`]
/// holds under a name are the contents of the lines so named, first to last.
pub proof fn lemma_collect_contents(lines: Seq<(Seq<char>, Seq<char>)>, name: Seq<char>)
    ensures
        collect(lines).dom().finite(),
        collect(lines).contains_key(name) <==> contents_of(lines, name).len() > 0,
        collect(lines).contains_key(name) ==> collect(lines)[name] == contents_of(lines, name),
    decreases lines.len(),
{
    if lines.len() > 0 {
        lemma_collect_contents(lines.drop_last(), name);
        lemma_collect_contents(lines.drop_last(), lines.last().0);
    }
}

/// Grouping keeps the names as they are: [`collect`] holds a name exactly
/// when a line carries that very name, character for character.
pub proof fn lemma_collect_names(lines: Seq<(Seq<char>, Seq<char>)>, name: Seq<char>)
    ensures
        collect(lines).contains_key(name) <==> exists|i: int|
            0 <= i < lines.len() && (#[trigger] lines[i]).0 == name,
    decreases lines.len(),
{
    if lines.len() > 0 {
        let front = lines.drop_last();
        lemma_collect_names(front, name);
        if collect(lines).contains_key(name) {
            if lines.last().0 == name {
                assert(lines[lines.len() - 1].0 == name);
            } else {
                let i = choose|i: int| 0 <= i < front.len() && (#[trigger] front[i]).0 == name;
                assert(lines[i].0 == name);
            }
        } else {
            assert forall|i: int| 0 <= i < lines.len() implies (#[trigger] lines[i]).0 != name by {
                if i < front.len() {
                    assert(front[i].0 != name);
                }
            }
        }
    }
}

/// The names in first-seen order are the names that [`collect`] holds, each
/// once.
pub proof fn lemma_first_seen(lines: Seq<(Seq<char>, Seq<char>)>)
    ensures
        first_seen(lines).no_duplicates(),
        forall|name: Seq<char>|
            first_seen(lines).contains(name) <==> #[trigger] collect(lines).contains_key(name),
    decreases lines.len(),
{
    if lines.len() > 0 {
        let front = lines.drop_last();
        let last = lines.last().0;
        lemma_first_seen(front);
        let names = first_seen(front);
        assert forall|name: Seq<char>|
            first_seen(lines).contains(name) <==> #[trigger] collect(lines).contains_key(
                name,
            ) by {
            assert(collect(front).contains_key(name) <==> names.contains(name));
            if !names.contains(last) {
                let after = names.push(last);
                assert(after[names.len() as int] == last);
                if names.contains(name) {
                    let i = choose|i: int| 0 <= i < names.len() && names[i] == name;
                    assert(after[i] == name);
                }
            }
        }
    }
}

/// Grouping loses no line: the content lists of [`collect`] hold as many
/// entries as there were lines, however many names the lines share.
pub proof fn lemma_collect_total(lines: Seq<(Seq<char>, Seq<char>)>)
    ensures
        collect(lines).dom().finite(),
        total_lines(collect(lines)) == lines.len(),
    decreases lines.len(),
{
    if lines.len() > 0 {
        lemma_collect_total(lines.drop_last());
        lemma_total_lines_add_line(collect(lines.drop_last()), lines.last().0, lines.last().1);
    }
}

/// One header: its name and the content of each line that carries the name,
/// in encounter order.
#[derive(Debug)]
pub struct Header {
    pub name: String,
    pub content: Vec<String>,
}

impl Header {
    /// The contents as character sequences.
    pub open spec fn contents(&self) -> Seq<Seq<char>> {
        self.content@.map_values(|c: String| c@)
    }
}

/// The headers of one article: one [`Header`] for each distinct name, and the
/// number of header lines that they were gathered from.
#[derive(Debug)]
pub struct Headers {
    inner: Vec<Header>,
    len: usize,
}

/// Entry `i` of `entries` is named `name`.
spec fn named(entries: Seq<Header>, i: int, name: Seq<char>) -> bool {
    0 <= i < entries.len() && entries[i].name@ == name
}

/// The entry of `entries` that is named `name`.
spec fn index_of(entries: Seq<Header>, name: Seq<char>) -> int {
    choose|i: int| named(entries, i, name)
}

/// No two entries share a name.
spec fn distinct(entries: Seq<Header>) -> bool {
    forall|i: int, j: int|
        0 <= i < j < entries.len() ==> #[trigger] entries[i].name@ != #[trigger] entries[j].name@
}

/// The contents that the entries stand for.
spec fn contents_map(entries: Seq<Header>) -> Contents {
    Map::new(
        |name: Seq<char>| exists|i: int| named(entries, i, name),
        |name: Seq<char>| entries[index_of(entries, name)].contents(),
    )
}

/// A new entry behind the others adds its name to the contents.
proof fn lemma_contents_map_push(entries: Seq<Header>, h: Header)
    requires
        distinct(entries),
        forall|i: int| !named(entries, i, h.name@),
    ensures
        distinct(entries.push(h)),
        contents_map(entries.push(h)) == contents_map(entries).insert(h.name@, h.contents()),
{
    let after = entries.push(h);
    let last = entries.len() as int;
    assert forall|i: int, j: int| 0 <= i < j < after.len() implies #[trigger] after[i].name@
        != #[trigger] after[j].name@ by {
        if j == last {
            assert(!named(entries, i, h.name@));
        }
    }
    assert forall|name: Seq<char>| #[trigger]
        contents_map(after).contains_key(name) == contents_map(entries).insert(
            h.name@,
            h.contents(),
        ).contains_key(name) by {
        if contents_map(after).contains_key(name) {
            let i = choose|i: int| named(after, i, name);
            if i < last {
                assert(named(entries, i, name));
            }
        }
        if name == h.name@ {
            assert(named(after, last, name));
        } else if contents_map(entries).contains_key(name) {
            let i = choose|i: int| named(entries, i, name);
            assert(named(after, i, name));
        }
    }
    assert forall|name: Seq<char>| #[trigger]
        contents_map(after).contains_key(name) implies contents_map(after)[name]
        == contents_map(entries).insert(h.name@, h.contents())[name] by {
        let i = index_of(after, name);
        assert(named(after, i, name));
        if name == h.name@ {
            if i < last {
                assert(named(entries, i, name));
            }
        } else {
            assert(named(entries, i, name));
            let j = index_of(entries, name);
            assert(named(entries, j, name));
        }
    }
    assert(contents_map(after) =~= contents_map(entries).insert(h.name@, h.contents()));
}

/// An entry put in place of one with the same name changes what the contents
/// hold under that name, and nothing else.
proof fn lemma_contents_map_update(entries: Seq<Header>, at: int, h: Header)
    requires
        distinct(entries),
        named(entries, at, h.name@),
    ensures
        distinct(entries.update(at, h)),
        contents_map(entries.update(at, h)) == contents_map(entries).insert(
            h.name@,
            h.contents(),
        ),
{
    let after = entries.update(at, h);
    assert forall|i: int, name: Seq<char>| named(after, i, name) == named(entries, i, name) by {}
    assert forall|name: Seq<char>| #[trigger]
        contents_map(after).contains_key(name) == contents_map(entries).contains_key(name) by {
        if contents_map(after).contains_key(name) {
            let i = choose|i: int| named(after, i, name);
            assert(named(entries, i, name));
        }
        if contents_map(entries).contains_key(name) {
            let i = choose|i: int| named(entries, i, name);
            assert(named(after, i, name));
        }
    }
    assert(named(entries, at, h.name@));
    assert forall|name: Seq<char>| #[trigger]
        contents_map(after).contains_key(name) implies contents_map(after)[name]
        == contents_map(entries).insert(h.name@, h.contents())[name] by {
        let i = index_of(after, name);
        assert(named(after, i, name));
        let j = index_of(entries, name);
        assert(named(entries, i, name));
        assert(named(entries, j, name));
        assert(i == j);
    }
    assert(contents_map(after) =~= contents_map(entries).insert(h.name@, h.contents()));
}

/// Returns true if the two strings hold the same characters.
fn same_text(a: &str, b: &str) -> (r: bool)
    ensures
        r == (a@ == b@),
{
    let x = a.as_bytes();
    let y = b.as_bytes();
    if x.len() != y.len() {
        return false;
    }
    let mut i: usize = 0;
    while i < x.len()
        invariant
            i <= x@.len() == y@.len(),
            x@ == encode_utf8(a@),
            y@ == encode_utf8(b@),
            forall|j: int| 0 <= j < i ==> x@[j] == y@[j],
        decreases x@.len() - i,
    {
        if x[i] != y[i] {
            assert(x@[i as int] != y@[i as int]);
            return false;
        }
        i += 1;
    }
    proof {
        assert(x@ =~= y@);
        encode_utf8_decode_utf8(a@);
        encode_utf8_decode_utf8(b@);
    }
    true
}

/// Finds the entry that is named `name`.
fn position(entries: &Vec<Header>, name: &str) -> (r: Option<usize>)
    ensures
        r matches Some(i) ==> named(entries@, i as int, name@),
        r is None ==> forall|i: int| !named(entries@, i, name@),
{
    let mut i: usize = 0;
    while i < entries.len()
        invariant
            i <= entries@.len(),
            forall|j: int| 0 <= j < i ==> !named(entries@, j, name@),
        decreases entries@.len() - i,
    {
        if same_text(entries[i].name.as_str(), name) {
            return Some(i);
        }
        i += 1;
    }
    None
}

impl View for Headers {
    type V = Contents;

    closed spec fn view(&self) -> Contents {
        contents_map(self.inner@)
    }
}

impl Headers {
    /// The invariant of the type: every name stands once, every entry holds a
    /// line, and the line count is the number of lines of all entries.
    pub closed spec fn wf(&self) -> bool {
        &&& distinct(self.inner@)
        &&& forall|i: int| 0 <= i < self.inner@.len() ==> (#[trigger] self.inner@[i]).content@.len() > 0
        &&& self@.dom().finite()
        &&& self.inner@.len() == self@.dom().len()
        &&& self.len == total_lines(self@)
    }

    /// The number of header lines that the headers were gathered from.
    pub closed spec fn line_count(&self) -> nat {
        self.len as nat
    }

    /// The names of the entries, in the order in which the entries stand.
    pub closed spec fn names(&self) -> Seq<Seq<char>> {
        self.inner@.map_values(|h: Header| h.name@)
    }

    /// Headers without a line.
    pub fn new() -> (headers: Headers)
        ensures
            headers.wf(),
            headers@ == Map::<Seq<char>, Seq<Seq<char>>>::empty(),
            headers.names() == Seq::<Seq<char>>::empty(),
            headers.line_count() == 0,
    {
        let headers = Headers { inner: Vec::new(), len: 0 };
        assert(headers@ =~= Map::<Seq<char>, Seq<Seq<char>>>::empty());
        headers
    }

    /// The total number of header lines: the sum of the lengths of all
    /// content lists, which is more than the number of names where a name
    /// repeats.
    pub fn len(&self) -> (n: usize)
        requires
            self.wf(),
        ensures
            n == self.line_count(),
            n == total_lines(self@),
    {
        self.len
    }

    /// Returns true if there is no header line.
    pub fn is_empty(&self) -> (r: bool)
        ensures
            r == (self.line_count() == 0),
    {
        self.len == 0
    }

    /// The number of entries: of distinct header names.
    pub fn entries(&self) -> (n: usize)
        requires
            self.wf(),
        ensures
            n == self.names().len(),
            n == self@.dom().len(),
    {
        self.inner.len()
    }

    /// Returns true if a header of exactly this name is held; upper and lower
    /// case differ.
    pub fn contains_key(&self, name: &str) -> (r: bool)
        ensures
            r == self@.contains_key(name@),
    {
        position(&self.inner, name).is_some()
    }

    /// Looks a header up by its exact name; upper and lower case differ.
    pub fn get(&self, name: &str) -> (r: Option<&Header>)
        requires
            self.wf(),
        ensures
            r is Some == self@.contains_key(name@),
            r matches Some(h) ==> h.name@ == name@ && h.contents() == self@[name@]
                && h.content@.len() > 0,
    {
        match position(&self.inner, name) {
            Some(i) => {
                proof {
                    let j = index_of(self.inner@, name@);
                    assert(named(self.inner@, i as int, name@));
                    assert(named(self.inner@, j, name@));
                }
                Some(&self.inner[i])
            },
            None => None,
        }
    }

    /// The entry at `index`, in the order of [`Headers::names`]; `None` behind
    /// the last entry.
    pub fn entry(&self, index: usize) -> (r: Option<&Header>)
        requires
            self.wf(),
        ensures
            r is Some == (index < self.names().len()),
            r matches Some(h) ==> h.name@ == self.names()[index as int] && self@.contains_key(
                h.name@,
            ) && h.contents() == self@[h.name@] && h.content@.len() > 0,
    {
        if index < self.inner.len() {
            proof {
                let name = self.inner@[index as int].name@;
                let j = index_of(self.inner@, name);
                assert(named(self.inner@, index as int, name));
                assert(named(self.inner@, j, name));
            }
            Some(&self.inner[index])
        } else {
            None
        }
    }

    /// Adds one header line: appends the content to the entry of the name,
    /// which is made where the name is new.
    pub fn push(&mut self, name: String, content: String)
        requires
            old(self).wf(),
            old(self).line_count() < usize::MAX,
        ensures
            final(self).wf(),
            final(self)@ == add_line(old(self)@, name@, content@),
            final(self).names() == add_name(old(self).names(), name@),
            final(self).line_count() == old(self).line_count() + 1,
    {
        proof {
            lemma_total_lines_add_line(self@, name@, content@);
        }
        let ghost before = self.inner@;
        let ghost names = self.names();
        match position(&self.inner, name.as_str()) {
            Some(i) => {
                proof {
                    let j = index_of(before, name@);
                    assert(named(before, i as int, name@));
                    assert(named(before, j, name@));
                    assert(names[i as int] == name@);
                }
                self.inner[i].content.push(content);
                proof {
                    let h = self.inner@[i as int];
                    assert(self.inner@ =~= before.update(i as int, h));
                    assert(h.contents() =~= before[i as int].contents().push(content@));
                    lemma_contents_map_update(before, i as int, h);
                    assert(self.names() =~= names);
                }
            },
            None => {
                let mut lines = Vec::new();
                lines.push(content);
                let h = Header { name, content: lines };
                proof {
                    assert(h.contents() =~= seq![content@]);
                    lemma_contents_map_push(before, h);
                    assert forall|i: int| 0 <= i < names.len() implies names[i] != name@ by {
                        assert(!named(before, i, name@));
                    }
                    assert(before.push(h).map_values(|h: Header| h.name@) =~= names.push(name@));
                }
                self.inner.push(h);
            },
        }
        self.len = self.len + 1;
    }
}

/// Of all headers: the names are finitely many and stand once each in
/// [`Headers::names`], every name has a line, and the line count is the sum
/// of the lengths of all content lists.
pub proof fn lemma_line_count(headers: Headers)
    requires
        headers.wf(),
    ensures
        headers@.dom().finite(),
        headers.names().no_duplicates(),
        headers.names().len() == headers@.dom().len(),
        forall|name: Seq<char>|
            headers.names().contains(name) <==> #[trigger] headers@.contains_key(name),
        headers.line_count() == total_lines(headers@),
        forall|name: Seq<char>| #[trigger]
            headers@.contains_key(name) ==> headers@[name].len() > 0,
{
    let names = headers.names();
    assert forall|name: Seq<char>| names.contains(name) <==> #[trigger] headers@.contains_key(
        name,
    ) by {
        if names.contains(name) {
            let i = choose|i: int| 0 <= i < names.len() && names[i] == name;
            assert(named(headers.inner@, i, name));
        }
        if headers@.contains_key(name) {
            let i = choose|i: int| named(headers.inner@, i, name);
            assert(names[i] == name);
        }
    }
    assert forall|name: Seq<char>| #[trigger] headers@.contains_key(name) implies headers@[name].len()
        > 0 by {
        let i = index_of(headers.inner@, name);
        assert(named(headers.inner@, i, name));
    }
}

} // verus!
