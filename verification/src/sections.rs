//! The output of the batched remote command, split back into the sections that it was written in.

use vstd::prelude::*;

use crate::text;
use crate::text::{after_prefix, free_of, lines_of, texts};

verus! {

/// Texts by name, each name once.
pub struct Sections {
    entries: Vec<(String, String)>,
}

/// What a list of named texts holds.
spec fn map_of(entries: Seq<(String, String)>) -> Map<Seq<char>, Seq<char>>
    decreases entries.len(),
{
    if entries.len() == 0 {
        Map::empty()
    } else {
        map_of(entries.drop_last()).insert(entries.last().0@, entries.last().1@)
    }
}

spec fn distinct(entries: Seq<(String, String)>) -> bool {
    forall|i: int, j: int| 0 <= i < j < entries.len() ==> entries[i].0@ != entries[j].0@
}

proof fn lemma_map_of(entries: Seq<(String, String)>)
    requires
        distinct(entries),
    ensures
        forall|i: int|
            0 <= i < entries.len() ==> map_of(entries).contains_key((#[trigger] entries[i]).0@)
                && map_of(entries)[entries[i].0@] == entries[i].1@,
        forall|k: Seq<char>| #[trigger]
            map_of(entries).contains_key(k) ==> exists|i: int|
                0 <= i < entries.len() && (#[trigger] entries[i]).0@ == k,
    decreases entries.len(),
{
    if entries.len() > 0 {
        let rest = entries.drop_last();
        assert(distinct(rest)) by {
            assert forall|i: int, j: int| 0 <= i < j < rest.len() implies rest[i].0@
                != rest[j].0@ by {
                assert(rest[i] == entries[i] && rest[j] == entries[j]);
            }
        }
        lemma_map_of(rest);
        assert forall|i: int| 0 <= i < entries.len() implies map_of(entries).contains_key(
            (#[trigger] entries[i]).0@,
        ) && map_of(entries)[entries[i].0@] == entries[i].1@ by {
            if i < rest.len() {
                assert(rest[i] == entries[i]);
                assert(entries[i].0@ != entries[entries.len() - 1].0@);
            }
        }
        assert forall|k: Seq<char>| #[trigger] map_of(entries).contains_key(k) implies exists|
            i: int,
        |
            0 <= i < entries.len() && (#[trigger] entries[i]).0@ == k by {
            if k == entries.last().0@ {
                assert(entries[entries.len() - 1].0@ == k);
            } else {
                assert(map_of(rest).contains_key(k));
                let i = choose|i: int| 0 <= i < rest.len() && (#[trigger] rest[i]).0@ == k;
                assert(entries[i].0@ == k);
            }
        }
    }
}

impl View for Sections {
    type V = Map<Seq<char>, Seq<char>>;

    closed spec fn view(&self) -> Map<Seq<char>, Seq<char>> {
        map_of(self.entries@)
    }
}

impl Sections {
    #[verifier::type_invariant]
    spec fn well_formed(self) -> bool {
        distinct(self.entries@)
    }

    pub fn new() -> (s: Sections)
        ensures
            s@ == Map::<Seq<char>, Seq<char>>::empty(),
    {
        Sections { entries: Vec::new() }
    }

    fn position(&self, key: &str) -> (r: Option<usize>)
        ensures
            match r {
                Some(i) => i < self.entries@.len() && self.entries@[i as int].0@ == key@,
                None => forall|i: int|
                    0 <= i < self.entries@.len() ==> (#[trigger] self.entries@[i]).0@ != key@,
            },
    {
        let mut i: usize = 0;
        while i < self.entries.len()
            invariant
                i <= self.entries.len(),
                forall|j: int| 0 <= j < i ==> (#[trigger] self.entries@[j]).0@ != key@,
            decreases self.entries.len() - i,
        {
            if text::same(self.entries[i].0.as_str(), key) {
                return Some(i);
            }
            i += 1;
        }
        None
    }

    /// The text of that name.
    pub fn get<'a>(&'a self, key: &str) -> (r: Option<&'a str>)
        ensures
            match r {
                Some(v) => self@.contains_key(key@) && self@[key@] == v@,
                None => !self@.contains_key(key@),
            },
    {
        proof {
            use_type_invariant(self);
            lemma_map_of(self.entries@);
        }
        match self.position(key) {
            Some(i) => Some(self.entries[i].1.as_str()),
            None => None,
        }
    }

    pub fn contains_key(&self, key: &str) -> (b: bool)
        ensures
            b == self@.contains_key(key@),
    {
        self.get(key).is_some()
    }

    /// Sets the text of a name.
    pub fn insert(&mut self, key: String, value: String)
        ensures
            final(self)@ == old(self)@.insert(key@, value@),
    {
        proof {
            use_type_invariant(&*self);
            lemma_map_of(self.entries@);
        }
        let found = self.position(key.as_str());
        let mut entries: Vec<(String, String)> = Vec::new();
        std::mem::swap(&mut entries, &mut self.entries);
        let ghost before = entries@;
        match found {
            Some(i) => {
                entries.set(i, (key, value));
            },
            None => {
                entries.push((key, value));
            },
        }
        proof {
            let after = entries@;
            assert(distinct(after)) by {
                assert forall|i: int, j: int| 0 <= i < j < after.len() implies after[i].0@
                    != after[j].0@ by {
                    if i < before.len() {
                        assert(after[i].0@ == before[i].0@);
                    }
                    if j < before.len() {
                        assert(after[j].0@ == before[j].0@);
                    }
                }
            }
            lemma_map_of(after);
            let n: int = match found {
                Some(i) => i as int,
                None => before.len() as int,
            };
            assert(after[n].0@ == key@ && after[n].1@ == value@);
            assert forall|k: Seq<char>| #[trigger]
                map_of(after).contains_key(k) == map_of(before).insert(
                    key@,
                    value@,
                ).contains_key(k) by {
                if map_of(after).contains_key(k) && k != key@ {
                    let i = choose|i: int| 0 <= i < after.len() && (#[trigger] after[i]).0@ == k;
                    assert(before[i] == after[i]);
                }
                if map_of(before).contains_key(k) {
                    let i = choose|i: int| 0 <= i < before.len() && (#[trigger] before[i]).0@ == k;
                    assert(after[i].0@ == k);
                }
            }
            assert forall|k: Seq<char>| #[trigger]
                map_of(after).contains_key(k) implies map_of(after)[k] == map_of(before).insert(
                key@,
                value@,
            )[k] by {
                if k != key@ {
                    let i = choose|i: int| 0 <= i < after.len() && (#[trigger] after[i]).0@ == k;
                    assert(before[i] == after[i]);
                }
            }
            assert(map_of(after) =~= map_of(before).insert(key@, value@));
        }
        self.entries = entries;
    }
}

/// The name on a marker line: what follows three number signs.
pub open spec fn marker_of(line: Seq<char>) -> Option<Seq<char>> {
    after_prefix(line, "###"@)
}

/// How many lines come before the next marker.
pub open spec fn body_len(lines: Seq<Seq<char>>) -> nat
    decreases lines.len(),
{
    if lines.len() == 0 || marker_of(lines[0]) is Some {
        0
    } else {
        1 + body_len(lines.drop_first())
    }
}

/// The lines with a line feed behind each.
pub open spec fn unlines(lines: Seq<Seq<char>>) -> Seq<char>
    decreases lines.len(),
{
    if lines.len() == 0 {
        Seq::empty()
    } else {
        unlines(lines.drop_last()) + lines.last() + "\n"@
    }
}

/// The sections that some lines hold. A marker opens the section of its name, which runs to the next
/// marker; the marker `end` opens none. Of two sections of one name the later counts.
pub open spec fn sections_of(lines: Seq<Seq<char>>) -> Map<Seq<char>, Seq<char>>
    decreases lines.len(),
{
    if lines.len() == 0 {
        Map::empty()
    } else {
        let tail = lines.drop_first();
        match marker_of(lines[0]) {
            None => sections_of(tail),
            Some(name) => {
                let n = body_len(tail) as int;
                proof {
                    lemma_body_len(tail);
                }
                let rest = sections_of(tail.skip(n));
                if name == "end"@ || rest.contains_key(name) {
                    rest
                } else {
                    rest.insert(name, unlines(tail.take(n)))
                }
            },
        }
    }
}

/// The lines before the next marker are no markers.
pub proof fn lemma_body_len(lines: Seq<Seq<char>>)
    ensures
        body_len(lines) <= lines.len(),
        forall|i: int| 0 <= i < body_len(lines) ==> marker_of(#[trigger] lines[i]) is None,
        body_len(lines) < lines.len() ==> marker_of(lines[body_len(lines) as int]) is Some,
    decreases lines.len(),
{
    if lines.len() > 0 && marker_of(lines[0]) is None {
        let rest = lines.drop_first();
        lemma_body_len(rest);
        assert forall|i: int| 0 <= i < body_len(lines) implies marker_of(
            #[trigger] lines[i],
        ) is None by {
            if i > 0 {
                assert(lines[i] == rest[i - 1]);
            }
        }
    }
}

/// Splits the output of the batched remote command into its sections.
pub fn split_sections(output: &str) -> (s: Sections)
    ensures
        s@ == sections_of(lines_of(output@)),
{
    let cs = text::chars(output);
    let lines = text::lines(cs.as_slice());
    let ghost all = texts(lines@);
    let mut sections = Sections::new();
    let mut i: usize = 0;
    assert(all.skip(0) =~= all);
    assert(sections@.union_prefer_right(sections_of(all.skip(0))) =~= sections_of(all));
    while i < lines.len()
        invariant
            i <= lines.len(),
            all == texts(lines@),
            sections@.union_prefer_right(sections_of(all.skip(i as int))) == sections_of(all),
        decreases lines.len() - i,
    {
        let ghost tail = all.skip(i as int).drop_first();
        let ghost before = sections@;
        assert(tail =~= all.skip(i + 1));
        assert(all.skip(i as int)[0] == lines@[i as int]@);
        match text::strip_prefix(lines[i], "###") {
            None => {
                i += 1;
            },
            Some(name) => {
                let start: usize = i + 1;
                let mut body = String::new();
                i += 1;
                proof {
                    lemma_body_len(tail);
                    assert(tail.take(0) =~= Seq::<Seq<char>>::empty());
                }
                while i < lines.len() && text::strip_prefix(lines[i], "###").is_none()
                    invariant
                        start <= i <= lines.len(),
                        all == texts(lines@),
                        tail == all.skip(start as int),
                        i - start <= body_len(tail) <= tail.len(),
                        forall|j: int|
                            0 <= j < body_len(tail) ==> marker_of(#[trigger] tail[j]) is None,
                        body_len(tail) < tail.len() ==> marker_of(
                            tail[body_len(tail) as int],
                        ) is Some,
                        body@ == unlines(tail.take(i - start)),
                    decreases lines.len() - i,
                {
                    assert(tail[i - start] == lines@[i as int]@);
                    let line = text::string(lines[i]);
                    body.append(line.as_str());
                    body.append("\n");
                    i += 1;
                    assert(tail.take(i - start).drop_last() =~= tail.take(i - start - 1));
                }
                proof {
                    if i < lines.len() {
                        assert(tail[i - start] == lines@[i as int]@);
                    }
                    assert(tail.skip(body_len(tail) as int) =~= all.skip(i as int));
                }
                if !text::is(name, "end") {
                    sections.insert(text::string(name), body);
                }
                assert(sections@.union_prefer_right(sections_of(all.skip(i as int)))
                    =~= before.union_prefer_right(
                    sections_of(all.skip(start as int - 1)),
                ));
            },
        }
    }
    assert(all.skip(i as int) =~= Seq::<Seq<char>>::empty());
    assert(sections@ =~= sections_of(all));
    sections
}

/// The marker `end` opens no section, so none has that name.
pub proof fn end_opens_no_section(output: Seq<char>)
    ensures
        !sections_of(lines_of(output)).contains_key("end"@),
{
    lemma_end_opens_no_section(lines_of(output));
}

proof fn lemma_end_opens_no_section(lines: Seq<Seq<char>>)
    ensures
        !sections_of(lines).contains_key("end"@),
    decreases lines.len(),
{
    if lines.len() > 0 {
        let tail = lines.drop_first();
        lemma_body_len(tail);
        if marker_of(lines[0]) is Some {
            lemma_end_opens_no_section(tail.skip(body_len(tail) as int));
        } else {
            lemma_end_opens_no_section(tail);
        }
    }
}

/// A text that is read back as one line: it holds no line feed and ends in no carriage return.
pub open spec fn is_line(s: Seq<char>) -> bool {
    free_of(s, '\n') && !(s.len() > 0 && s.last() == '\r')
}

/// The lines of a batch: a marker and a body for each section, and the marker `end`.
pub open spec fn batch(sections: Seq<(Seq<char>, Seq<Seq<char>>)>) -> Seq<Seq<char>>
    decreases sections.len(),
{
    if sections.len() == 0 {
        seq!["###"@ + "end"@]
    } else {
        seq!["###"@ + sections[0].0] + sections[0].1 + batch(sections.drop_first())
    }
}

/// Sections that a batch can carry: named on one line, not `end`, their lines no markers.
pub open spec fn is_section(section: (Seq<char>, Seq<Seq<char>>)) -> bool {
    &&& is_line(section.0)
    &&& section.0 != "end"@
    &&& forall|i: int|
        0 <= i < section.1.len() ==> is_line(#[trigger] section.1[i]) && marker_of(
            section.1[i],
        ) is None
}

proof fn lemma_marker(name: Seq<char>)
    ensures
        marker_of("###"@ + name) == Some(name),
{
    let line = "###"@ + name;
    assert("###"@ =~= line.subrange(0, "###"@.len() as int));
    assert(line.skip("###"@.len() as int) =~= name);
}

proof fn lemma_body_then_marker(body: Seq<Seq<char>>, rest: Seq<Seq<char>>)
    requires
        forall|i: int| 0 <= i < body.len() ==> marker_of(#[trigger] body[i]) is None,
        rest.len() > 0,
        marker_of(rest[0]) is Some,
    ensures
        body_len(body + rest) == body.len(),
    decreases body.len(),
{
    let all = body + rest;
    if body.len() > 0 {
        let tail = body.drop_first();
        assert(all.drop_first() =~= tail + rest);
        assert forall|i: int| 0 <= i < tail.len() implies marker_of(#[trigger] tail[i]) is None by {
            assert(tail[i] == body[i + 1]);
        }
        lemma_body_then_marker(tail, rest);
        assert(all[0] == body[0]);
    } else {
        assert(all[0] == rest[0]);
    }
}

proof fn lemma_batch_starts_with_marker(sections: Seq<(Seq<char>, Seq<Seq<char>>)>)
    ensures
        batch(sections).len() > 0,
        marker_of(batch(sections)[0]) is Some,
{
    if sections.len() == 0 {
        lemma_marker("end"@);
    } else {
        lemma_marker(sections[0].0);
    }
}

proof fn lemma_batch_splits_back(sections: Seq<(Seq<char>, Seq<Seq<char>>)>)
    requires
        forall|i: int| 0 <= i < sections.len() ==> is_section(#[trigger] sections[i]),
        forall|i: int, j: int|
            0 <= i < j < sections.len() ==> (#[trigger] sections[i]).0 != (
            #[trigger] sections[j]).0,
    ensures
        forall|i: int|
            0 <= i < sections.len() ==> sections_of(batch(sections)).contains_key(
                (#[trigger] sections[i]).0,
            ) && sections_of(batch(sections))[sections[i].0] == unlines(sections[i].1),
        forall|k: Seq<char>| #[trigger]
            sections_of(batch(sections)).contains_key(k) ==> exists|i: int|
                0 <= i < sections.len() && (#[trigger] sections[i]).0 == k,
    decreases sections.len(),
{
    let lines = batch(sections);
    if sections.len() == 0 {
        lemma_marker("end"@);
        let tail = lines.drop_first();
        assert(tail =~= Seq::<Seq<char>>::empty());
        lemma_body_len(tail);
        assert(tail.skip(body_len(tail) as int) =~= Seq::<Seq<char>>::empty());
        assert(sections_of(tail) == Map::<Seq<char>, Seq<char>>::empty());
    } else {
        let first = sections[0];
        let others = sections.drop_first();
        assert(is_section(sections[0]));
        assert forall|i: int| 0 <= i < others.len() implies is_section(#[trigger] others[i]) by {
            assert(others[i] == sections[i + 1]);
        }
        assert forall|i: int, j: int| 0 <= i < j < others.len() implies (#[trigger] others[i]).0
            != (#[trigger] others[j]).0 by {
            assert(others[i] == sections[i + 1] && others[j] == sections[j + 1]);
        }
        lemma_batch_splits_back(others);
        lemma_marker(first.0);
        lemma_batch_starts_with_marker(others);
        lemma_body_then_marker(first.1, batch(others));
        let tail = lines.drop_first();
        assert(tail =~= first.1 + batch(others));
        assert(tail.take(first.1.len() as int) =~= first.1);
        assert(tail.skip(first.1.len() as int) =~= batch(others));
        let rest = sections_of(batch(others));
        if rest.contains_key(first.0) {
            let i = choose|i: int| 0 <= i < others.len() && (#[trigger] others[i]).0 == first.0;
            assert(others[i] == sections[i + 1]);
            assert(sections[0].0 != sections[i + 1].0);
        }
        assert(sections_of(lines) == rest.insert(first.0, unlines(first.1)));
        assert forall|i: int| 0 <= i < sections.len() implies sections_of(lines).contains_key(
            (#[trigger] sections[i]).0,
        ) && sections_of(lines)[sections[i].0] == unlines(sections[i].1) by {
            if i > 0 {
                assert(others[i - 1] == sections[i]);
                assert(sections[0].0 != sections[i].0);
            }
        }
        assert forall|k: Seq<char>| #[trigger] sections_of(lines).contains_key(k) implies exists|
            i: int,
        |
            0 <= i < sections.len() && (#[trigger] sections[i]).0 == k by {
            if k == first.0 {
                assert(sections[0].0 == k);
            } else {
                let i = choose|i: int| 0 <= i < others.len() && (#[trigger] others[i]).0 == k;
                assert(sections[i + 1].0 == k);
            }
        }
    }
}

proof fn lemma_unlines_head(lines: Seq<Seq<char>>)
    requires
        lines.len() > 0,
    ensures
        unlines(lines) == lines[0] + "\n"@ + unlines(lines.drop_first()),
    decreases lines.len(),
{
    let rest = lines.drop_first();
    let front = lines.drop_last();
    if lines.len() == 1 {
        assert(front =~= Seq::<Seq<char>>::empty());
        assert(rest =~= Seq::<Seq<char>>::empty());
        assert(unlines(lines) =~= lines[0] + "\n"@ + unlines(rest));
    } else {
        lemma_unlines_head(front);
        assert(front.drop_first() =~= rest.drop_last());
        assert(rest.last() == lines.last());
        assert(unlines(lines) =~= lines[0] + "\n"@ + unlines(rest));
    }
}

/// Lines that are written out with a line feed behind each are read back as they were.
pub proof fn lines_read_back(lines: Seq<Seq<char>>)
    requires
        forall|i: int| 0 <= i < lines.len() ==> is_line(#[trigger] lines[i]),
    ensures
        lines_of(unlines(lines)) == lines,
    decreases lines.len(),
{
    if lines.len() > 0 {
        let s = unlines(lines);
        let rest = lines.drop_first();
        let n = lines[0].len() as int;
        assert(is_line(lines[0]));
        lemma_unlines_head(lines);
        reveal_strlit("\n");
        assert(s[n] == '\n');
        assert forall|i: int| 0 <= i < n implies s[i] != '\n' by {
            assert(s[i] == lines[0][i]);
        }
        text::lemma_is_first_index(s, '\n', n);
        assert(s.take(n) =~= lines[0]);
        assert(s.skip(n + 1) =~= unlines(rest));
        assert forall|i: int| 0 <= i < rest.len() implies is_line(#[trigger] rest[i]) by {
            assert(rest[i] == lines[i + 1]);
        }
        lines_read_back(rest);
        assert(lines_of(s) =~= lines);
    }
}

proof fn lemma_batch_lines(sections: Seq<(Seq<char>, Seq<Seq<char>>)>)
    requires
        forall|i: int| 0 <= i < sections.len() ==> is_section(#[trigger] sections[i]),
    ensures
        forall|i: int| 0 <= i < batch(sections).len() ==> is_line(#[trigger] batch(sections)[i]),
    decreases sections.len(),
{
    reveal_strlit("###");
    reveal_strlit("end");
    let lines = batch(sections);
    if sections.len() > 0 {
        let first = sections[0];
        let others = sections.drop_first();
        assert(is_section(sections[0]));
        assert forall|i: int| 0 <= i < others.len() implies is_section(#[trigger] others[i]) by {
            assert(others[i] == sections[i + 1]);
        }
        lemma_batch_lines(others);
        assert(is_line("###"@ + first.0));
        assert forall|i: int| 0 <= i < lines.len() implies is_line(#[trigger] lines[i]) by {
            if i > 0 {
                if i <= first.1.len() {
                    assert(lines[i] == first.1[i - 1]);
                } else {
                    assert(lines[i] == batch(others)[i - 1 - first.1.len()]);
                }
            }
        }
    }
}

/// A batch of sections that is written out as text is split back into exactly those sections.
pub proof fn batch_splits_back(sections: Seq<(Seq<char>, Seq<Seq<char>>)>)
    requires
        forall|i: int| 0 <= i < sections.len() ==> is_section(#[trigger] sections[i]),
        forall|i: int, j: int|
            0 <= i < j < sections.len() ==> (#[trigger] sections[i]).0 != (
            #[trigger] sections[j]).0,
    ensures
        ({
            let read = sections_of(lines_of(unlines(batch(sections))));
            &&& forall|i: int|
                0 <= i < sections.len() ==> read.contains_key((#[trigger] sections[i]).0)
                    && read[sections[i].0] == unlines(sections[i].1)
            &&& forall|k: Seq<char>| #[trigger]
                read.contains_key(k) ==> exists|i: int|
                    0 <= i < sections.len() && (#[trigger] sections[i]).0 == k
        }),
{
    lemma_batch_lines(sections);
    lines_read_back(batch(sections));
    lemma_batch_splits_back(sections);
}

proof fn lemma_body_before_marker(a: Seq<Seq<char>>, b: Seq<Seq<char>>)
    requires
        b.len() > 0,
        marker_of(b[0]) is Some,
    ensures
        body_len(a + b) == body_len(a),
    decreases a.len(),
{
    if a.len() == 0 {
        assert(a + b =~= b);
    } else {
        assert((a + b)[0] == a[0]);
        assert((a + b).drop_first() =~= a.drop_first() + b);
        lemma_body_before_marker(a.drop_first(), b);
    }
}

/// Sections add up: what is written from a marker on adds its sections to those before it, and of two
/// sections of one name the later counts.
pub proof fn later_section_counts(a: Seq<Seq<char>>, b: Seq<Seq<char>>)
    requires
        b.len() > 0,
        marker_of(b[0]) is Some,
    ensures
        sections_of(a + b) == sections_of(a).union_prefer_right(sections_of(b)),
    decreases a.len(),
{
    if a.len() == 0 {
        assert(a + b =~= b);
        assert(sections_of(a + b) =~= sections_of(a).union_prefer_right(sections_of(b)));
    } else {
        let tail = a.drop_first();
        assert((a + b)[0] == a[0]);
        assert((a + b).drop_first() =~= tail + b);
        lemma_body_len(tail);
        lemma_body_before_marker(tail, b);
        let n = body_len(tail) as int;
        assert((tail + b).skip(n) =~= tail.skip(n) + b);
        assert((tail + b).take(n) =~= tail.take(n));
        later_section_counts(tail, b);
        later_section_counts(tail.skip(n), b);
        assert(sections_of(a + b) =~= sections_of(a).union_prefer_right(sections_of(b)));
    }
}

} // verus!
