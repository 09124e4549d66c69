//! Filling the placeholders of a template.

use vstd::prelude::*;

use crate::text;
use crate::text::{free_of, occurs_in, replaced};

verus! {

/// A text with each placeholder replaced by its value, one placeholder after the other.
pub open spec fn filled(s: Seq<char>, fills: Seq<(Seq<char>, Seq<char>)>) -> Seq<char>
    decreases fills.len(),
{
    if fills.len() == 0 {
        s
    } else {
        replaced(filled(s, fills.drop_last()), fills.last().0, fills.last().1)
    }
}

/// The texts of a list of placeholders and values.
pub open spec fn fill_views(fills: Seq<(&str, &str)>) -> Seq<(Seq<char>, Seq<char>)> {
    Seq::new(fills.len(), |i: int| (fills[i].0@, fills[i].1@))
}

/// Replaces each placeholder by its value, one after the other.
pub fn fill(template: &str, fills: &[(&str, &str)]) -> (r: Vec<char>)
    requires
        forall|i: int| 0 <= i < fills@.len() ==> (#[trigger] fills@[i]).0@.len() > 0,
    ensures
        r@ == filled(template@, fill_views(fills@)),
{
    let ghost all = fill_views(fills@);
    let mut r = text::chars(template);
    let mut i: usize = 0;
    while i < fills.len()
        invariant
            i <= fills.len(),
            all == fill_views(fills@),
            forall|j: int| 0 <= j < fills@.len() ==> (#[trigger] fills@[j]).0@.len() > 0,
            r@ == filled(template@, all.take(i as int)),
        decreases fills.len() - i,
    {
        let (placeholder, value) = fills[i];
        assert(fills@[i as int].0@.len() > 0);
        r = text::replace(r.as_slice(), placeholder, value);
        assert(all.take(i + 1).drop_last() =~= all.take(i as int));
        i += 1;
    }
    assert(all.take(i as int) =~= all);
    r
}

/// A text with a character that another lacks does not occur in it.
pub proof fn lemma_cannot_occur(p: Seq<char>, s: Seq<char>, i: int)
    requires
        0 <= i < p.len(),
        free_of(s, p[i]),
    ensures
        !occurs_in(p, s),
{
    if occurs_in(p, s) {
        let at = choose|at: int| 0 <= at <= s.len() && #[trigger] p.is_prefix_of(s.skip(at));
        assert(s.skip(at)[i] == p[i]);
        assert(s[at + i] == p[i]);
    }
}

/// Where a text does not occur, replacing it changes nothing.
pub proof fn lemma_replaced_absent(s: Seq<char>, p: Seq<char>, w: Seq<char>)
    requires
        !occurs_in(p, s),
    ensures
        replaced(s, p, w) == s,
    decreases s.len(),
{
    if s.len() > 0 && p.len() > 0 {
        assert(s.skip(0) =~= s);
        assert(!p.is_prefix_of(s.skip(0)));
        let rest = s.drop_first();
        assert forall|i: int| 0 <= i <= rest.len() implies !#[trigger] p.is_prefix_of(
            rest.skip(i),
        ) by {
            assert(rest.skip(i) =~= s.skip(i + 1));
        }
        lemma_replaced_absent(rest, p, w);
        assert(seq![s[0]] + rest =~= s);
    }
}

/// A whole text that is replaced.
pub proof fn lemma_replaced_whole(p: Seq<char>, rest: Seq<char>, w: Seq<char>)
    requires
        p.len() > 0,
    ensures
        replaced(p + rest, p, w) == w + replaced(rest, p, w),
        replaced(p, p, w) == w,
{
    assert((p + rest).take(p.len() as int) =~= p);
    assert(p.is_prefix_of(p + rest));
    assert((p + rest).skip(p.len() as int) =~= rest);
    assert(p.skip(p.len() as int) =~= Seq::<char>::empty());
    assert(w + replaced(Seq::<char>::empty(), p, w) =~= w);
}

/// A text that lacks a character is replaced on either side of it by itself.
pub proof fn lemma_replaced_apart(
    x: Seq<char>,
    c: char,
    y: Seq<char>,
    p: Seq<char>,
    w: Seq<char>,
)
    requires
        p.len() > 0,
        free_of(p, c),
    ensures
        replaced(x + seq![c] + y, p, w) == replaced(x, p, w) + seq![c] + replaced(y, p, w),
    decreases x.len(),
{
    let s = x + seq![c] + y;
    assert(s[x.len() as int] == c);
    if x.len() == 0 {
        assert(p[0] != c);
        assert(!p.is_prefix_of(s));
        assert(s.drop_first() =~= y);
        assert(replaced(x, p, w) + seq![c] + replaced(y, p, w) =~= seq![c] + replaced(
            y,
            p,
            w,
        ));
    } else if p.is_prefix_of(s) {
        if p.len() > x.len() {
            assert(p[x.len() as int] == s[x.len() as int]);
        }
        assert(p.is_prefix_of(x));
        let rest = x.skip(p.len() as int);
        assert(s.skip(p.len() as int) =~= rest + seq![c] + y);
        lemma_replaced_apart(rest, c, y, p, w);
        assert(w + (replaced(rest, p, w) + seq![c] + replaced(y, p, w)) =~= (w + replaced(
            rest,
            p,
            w,
        )) + seq![c] + replaced(y, p, w));
    } else {
        if p.is_prefix_of(x) {
            assert(p.is_prefix_of(s));
        }
        let rest = x.drop_first();
        assert(s.drop_first() =~= rest + seq![c] + y);
        lemma_replaced_apart(rest, c, y, p, w);
        assert(seq![s[0]] + (replaced(rest, p, w) + seq![c] + replaced(y, p, w)) =~= (seq![s[0]]
            + replaced(rest, p, w)) + seq![c] + replaced(y, p, w));
    }
}

/// Whether a text is made of whole lines.
pub open spec fn whole_lines(s: Seq<char>) -> bool {
    s.len() > 0 ==> s.last() == '\n'
}

/// A whole line is replaced in the lines before a point, and in those behind it.
pub proof fn lemma_replaced_by_lines(x: Seq<char>, y: Seq<char>, line: Seq<char>, w: Seq<char>)
    requires
        whole_lines(x),
        free_of(line, '\n'),
    ensures
        ({
            let p = line + seq!['\n'];
            replaced(x + y, p, w) == replaced(x, p, w) + replaced(y, p, w)
        }),
    decreases x.len(),
{
    let p = line + seq!['\n'];
    let s = x + y;
    if x.len() == 0 {
        assert(s =~= y);
        assert(replaced(x, p, w) + replaced(y, p, w) =~= replaced(y, p, w));
    } else if p.is_prefix_of(s) {
        if p.len() > x.len() {
            assert(p[x.len() - 1] == s[x.len() - 1]);
            assert(line[x.len() - 1] == '\n');
        }
        assert(p.is_prefix_of(x));
        let rest = x.skip(p.len() as int);
        assert(s.skip(p.len() as int) =~= rest + y);
        lemma_replaced_by_lines(rest, y, line, w);
        assert(w + (replaced(rest, p, w) + replaced(y, p, w)) =~= (w + replaced(rest, p, w))
            + replaced(y, p, w));
    } else {
        if p.is_prefix_of(x) {
            assert(p.is_prefix_of(s));
        }
        let rest = x.drop_first();
        assert(s.drop_first() =~= rest + y);
        lemma_replaced_by_lines(rest, y, line, w);
        assert(seq![s[0]] + (replaced(rest, p, w) + replaced(y, p, w)) =~= (seq![s[0]] + replaced(
            rest,
            p,
            w,
        )) + replaced(y, p, w));
    }
}

/// Whether no placeholder holds a character.
pub open spec fn lacking(fills: Seq<(Seq<char>, Seq<char>)>, c: char) -> bool {
    forall|i: int|
        0 <= i < fills.len() ==> (#[trigger] fills[i]).0.len() > 0 && free_of(fills[i].0, c)
}

/// Placeholders that lack a character are filled on either side of it by themselves.
pub proof fn lemma_filled_apart(
    x: Seq<char>,
    c: char,
    y: Seq<char>,
    fills: Seq<(Seq<char>, Seq<char>)>,
)
    requires
        lacking(fills, c),
    ensures
        filled(x + seq![c] + y, fills) == filled(x, fills) + seq![c] + filled(y, fills),
    decreases fills.len(),
{
    if fills.len() > 0 {
        let front = fills.drop_last();
        assert forall|i: int| 0 <= i < front.len() implies (#[trigger] front[i]).0.len() > 0
            && free_of(front[i].0, c) by {
            assert(front[i] == fills[i]);
        }
        assert(fills[fills.len() - 1] == fills.last());
        lemma_filled_apart(x, c, y, front);
        lemma_replaced_apart(
            filled(x, front),
            c,
            filled(y, front),
            fills.last().0,
            fills.last().1,
        );
    }
}

/// Filling some placeholders and then others is filling them all.
pub proof fn lemma_filled_in_turn(
    s: Seq<char>,
    a: Seq<(Seq<char>, Seq<char>)>,
    b: Seq<(Seq<char>, Seq<char>)>,
)
    ensures
        filled(s, a + b) == filled(filled(s, a), b),
    decreases b.len(),
{
    if b.len() == 0 {
        assert(a + b =~= a);
    } else {
        lemma_filled_in_turn(s, a, b.drop_last());
        assert((a + b).drop_last() =~= a + b.drop_last());
        assert((a + b).last() == b.last());
    }
}

/// What a text begins with stays, where no placeholder begins with it. Nothing stays nothing.
pub proof fn lemma_filled_start(s: Seq<char>, fills: Seq<(Seq<char>, Seq<char>)>)
    requires
        forall|i: int|
            0 <= i < fills.len() ==> (#[trigger] fills[i]).0.len() > 0 && (s.len() > 0
                ==> fills[i].0[0] != s[0]),
    ensures
        s.len() == 0 ==> filled(s, fills).len() == 0,
        s.len() > 0 ==> filled(s, fills).len() > 0 && filled(s, fills)[0] == s[0],
    decreases fills.len(),
{
    if fills.len() > 0 {
        let front = fills.drop_last();
        assert forall|i: int| 0 <= i < front.len() implies (#[trigger] front[i]).0.len() > 0 && (
        s.len() > 0 ==> front[i].0[0] != s[0]) by {
            assert(front[i] == fills[i]);
        }
        lemma_filled_start(s, front);
        assert(fills[fills.len() - 1] == fills.last());
        if s.len() > 0 {
            assert(!fills.last().0.is_prefix_of(filled(s, front)));
        }
    }
}

/// Where no placeholder occurs, filling them changes nothing.
pub proof fn lemma_filled_absent(s: Seq<char>, fills: Seq<(Seq<char>, Seq<char>)>)
    requires
        forall|i: int| 0 <= i < fills.len() ==> !occurs_in((#[trigger] fills[i]).0, s),
    ensures
        filled(s, fills) == s,
    decreases fills.len(),
{
    if fills.len() > 0 {
        let front = fills.drop_last();
        assert forall|i: int| 0 <= i < front.len() implies !occurs_in(
            (#[trigger] front[i]).0,
            s,
        ) by {
            assert(front[i] == fills[i]);
        }
        assert(fills[fills.len() - 1] == fills.last());
        lemma_filled_absent(s, front);
        lemma_replaced_absent(s, fills.last().0, fills.last().1);
    }
}

/// What begins a replaced text began the text already, where it lacks what each replacement begins
/// with.
proof fn lemma_prefix_was_there(q: Seq<char>, s: Seq<char>, p: Seq<char>, w: Seq<char>)
    requires
        w.len() > 0,
        free_of(q, w[0]),
        q.is_prefix_of(replaced(s, p, w)),
    ensures
        q.is_prefix_of(s),
    decreases s.len(),
{
    let r = replaced(s, p, w);
    if s.len() > 0 && p.len() > 0 && q.len() > 0 {
        assert(q[0] == r[0]);
        if p.is_prefix_of(s) {
            assert(r[0] == w[0]);
        } else {
            let rest = replaced(s.drop_first(), p, w);
            assert(q.drop_first().is_prefix_of(rest)) by {
                assert forall|i: int| 0 <= i < q.len() - 1 implies q.drop_first()[i] == rest[i] by {
                    assert(q[i + 1] == r[i + 1]);
                }
                assert(rest.take(q.len() - 1) =~= q.drop_first());
            }
            assert(free_of(q.drop_first(), w[0])) by {
                text::lemma_part_free(q, w[0], 1, q.len() as int);
            }
            lemma_prefix_was_there(q.drop_first(), s.drop_first(), p, w);
            assert forall|i: int| 0 <= i < q.len() implies q[i] == s[i] by {
                if i > 0 {
                    assert(q.drop_first()[i - 1] == s.drop_first()[i - 1]);
                }
            }
            assert(s.take(q.len() as int) =~= q);
        }
    }
}

/// Replacing brings in no text that was not there: where the replacement neither begins with a
/// character of it nor holds the one that it begins with.
pub proof fn lemma_nothing_new(q: Seq<char>, s: Seq<char>, p: Seq<char>, w: Seq<char>)
    requires
        q.len() > 0,
        w.len() > 0,
        free_of(q, w[0]),
        free_of(w, q[0]),
        !occurs_in(q, s),
    ensures
        !occurs_in(q, replaced(s, p, w)),
    decreases s.len(),
{
    let r = replaced(s, p, w);
    if s.len() > 0 && p.len() > 0 {
        let replaces = p.is_prefix_of(s);
        let n = if replaces {
            p.len() as int
        } else {
            1
        };
        let head = if replaces {
            w
        } else {
            seq![s[0]]
        };
        let tail = s.skip(n);
        let rest = replaced(tail, p, w);
        assert(s.drop_first() =~= s.skip(1));
        assert(r == head + rest);
        assert forall|i: int| 0 <= i <= tail.len() implies !#[trigger] q.is_prefix_of(
            tail.skip(i),
        ) by {
            assert(tail.skip(i) =~= s.skip(n + i));
        }
        lemma_nothing_new(q, tail, p, w);
        assert forall|i: int| 0 <= i <= r.len() implies !#[trigger] q.is_prefix_of(r.skip(i)) by {
            if q.is_prefix_of(r.skip(i)) {
                assert(q[0] == r.skip(i)[0]);
                if i >= head.len() {
                    assert(r.skip(i) =~= rest.skip(i - head.len()));
                } else if replaces {
                    assert(r.skip(i)[0] == w[i]);
                } else {
                    assert(r.skip(0) =~= r);
                    assert(s.skip(0) =~= s);
                    lemma_prefix_was_there(q, s, p, w);
                }
            }
        }
    }
}

/// Once it is replaced, a placeholder is gone, whatever the template was: where the value neither
/// begins with a character of the placeholder nor holds the one that the placeholder begins with.
pub proof fn replaced_placeholder_is_gone(s: Seq<char>, p: Seq<char>, w: Seq<char>)
    requires
        p.len() > 0,
        w.len() > 0,
        free_of(p, w[0]),
        free_of(w, p[0]),
    ensures
        !occurs_in(p, replaced(s, p, w)),
    decreases s.len(),
{
    let r = replaced(s, p, w);
    if s.len() > 0 {
        let replaces = p.is_prefix_of(s);
        let tail = if replaces {
            s.skip(p.len() as int)
        } else {
            s.drop_first()
        };
        let head = if replaces {
            w
        } else {
            seq![s[0]]
        };
        let rest = replaced(tail, p, w);
        assert(r == head + rest);
        replaced_placeholder_is_gone(tail, p, w);
        assert forall|i: int| 0 <= i <= r.len() implies !#[trigger] p.is_prefix_of(r.skip(i)) by {
            if p.is_prefix_of(r.skip(i)) {
                assert(p[0] == r.skip(i)[0]);
                if i >= head.len() {
                    assert(r.skip(i) =~= rest.skip(i - head.len()));
                } else if replaces {
                    assert(r.skip(i)[0] == w[i]);
                } else {
                    assert(r.skip(0) =~= r);
                    lemma_prefix_was_there(p, s, p, w);
                }
            }
        }
    }
}

} // verus!
