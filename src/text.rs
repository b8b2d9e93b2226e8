//! Decimal text of integers and separator-joined text.
use vstd::prelude::*;

verus! {

/// The decimal digit character for `d` (meaningful for `d < 10`).
pub open spec fn digit_char(d: nat) -> char {
    if d == 0 {
        '0'
    } else if d == 1 {
        '1'
    } else if d == 2 {
        '2'
    } else if d == 3 {
        '3'
    } else if d == 4 {
        '4'
    } else if d == 5 {
        '5'
    } else if d == 6 {
        '6'
    } else if d == 7 {
        '7'
    } else if d == 8 {
        '8'
    } else {
        '9'
    }
}

/// Decimal text of a natural number, without leading zeros.
pub open spec fn nat_text(n: nat) -> Seq<char>
    decreases n,
{
    if n < 10 {
        seq![digit_char(n)]
    } else {
        nat_text(n / 10) + seq![digit_char(n % 10)]
    }
}

/// Decimal text of an integer, with a leading `-` when negative.
pub open spec fn int_text(i: int) -> Seq<char> {
    if i < 0 {
        seq!['-'] + nat_text((-i) as nat)
    } else {
        nat_text(i as nat)
    }
}

/// The parts one after another, with `sep` between each two neighbours.
pub open spec fn join(parts: Seq<Seq<char>>, sep: Seq<char>) -> Seq<char>
    decreases parts.len(),
{
    if parts.len() == 0 {
        Seq::empty()
    } else if parts.len() == 1 {
        parts[0]
    } else {
        join(parts.drop_last(), sep) + sep + parts.last()
    }
}

fn digit_str(d: u64) -> (r: &'static str)
    requires
        d < 10,
    ensures
        r@ == seq![digit_char(d as nat)],
{
    proof {
        reveal_strlit("0");
        reveal_strlit("1");
        reveal_strlit("2");
        reveal_strlit("3");
        reveal_strlit("4");
        reveal_strlit("5");
        reveal_strlit("6");
        reveal_strlit("7");
        reveal_strlit("8");
        reveal_strlit("9");
    }
    if d == 0 {
        "0"
    } else if d == 1 {
        "1"
    } else if d == 2 {
        "2"
    } else if d == 3 {
        "3"
    } else if d == 4 {
        "4"
    } else if d == 5 {
        "5"
    } else if d == 6 {
        "6"
    } else if d == 7 {
        "7"
    } else if d == 8 {
        "8"
    } else {
        "9"
    }
}

/// Appends the decimal text of `n`.
pub fn push_nat(out: &mut String, n: u64)
    ensures
        final(out)@ == old(out)@ + nat_text(n as nat),
    decreases n,
{
    if n >= 10 {
        push_nat(out, n / 10);
    }
    out.append(digit_str(n % 10));
}

/// Appends the decimal text of `v`.
pub fn push_int(out: &mut String, v: i64)
    ensures
        final(out)@ == old(out)@ + int_text(v as int),
{
    if v < 0 {
        proof {
            reveal_strlit("-");
        }
        out.append("-");
        let m: u64 = (0i128 - v as i128) as u64;
        push_nat(out, m);
        assert(final(out)@ =~= old(out)@ + int_text(v as int));
    } else {
        push_nat(out, v as u64);
    }
}

/// Joining the first `i + 1` parts adds `sep` and the next part to the join of the first `i`.
pub proof fn lemma_join_take(parts: Seq<Seq<char>>, sep: Seq<char>, i: int)
    requires
        0 <= i < parts.len(),
    ensures
        join(parts.take(i + 1), sep) == if i == 0 {
            parts[i]
        } else {
            join(parts.take(i), sep) + sep + parts[i]
        },
{
    assert(parts.take(i + 1).drop_last() =~= parts.take(i));
}

/// Adding a part to a nonempty list adds `sep` and the part to the join.
pub proof fn lemma_join_push(parts: Seq<Seq<char>>, sep: Seq<char>, part: Seq<char>)
    requires
        parts.len() > 0,
    ensures
        join(parts.push(part), sep) == join(parts, sep) + sep + part,
{
    assert(parts.push(part).drop_last() =~= parts);
}

/// Picks out line breaks.
pub open spec fn break_pred() -> spec_fn(char) -> bool {
    |c: char| c == '\n'
}

/// The number of line breaks in `s`.
pub open spec fn line_breaks(s: Seq<char>) -> nat {
    s.filter(break_pred()).len()
}

/// `s` holds no line break.
pub open spec fn unbroken(s: Seq<char>) -> bool {
    forall|i: int| 0 <= i < s.len() ==> s[i] != '\n'
}

/// Text without line breaks, put together, has none.
pub broadcast proof fn lemma_unbroken_add(a: Seq<char>, b: Seq<char>)
    requires
        unbroken(a),
        unbroken(b),
    ensures
        #[trigger] unbroken(a + b),
{
    assert forall|i: int| 0 <= i < (a + b).len() implies (a + b)[i] != '\n' by {
        if i >= a.len() {
            assert((a + b)[i] == b[i - a.len()]);
        }
    }
}

/// Text without line breaks counts none.
pub proof fn lemma_unbroken_count(s: Seq<char>)
    requires
        unbroken(s),
    ensures
        line_breaks(s) == 0,
    decreases s.len(),
{
    reveal(Seq::filter);
    if s.len() > 0 {
        assert(unbroken(s.drop_last()));
        lemma_unbroken_count(s.drop_last());
    }
}

/// Decimal text has no line break.
pub proof fn lemma_int_text_unbroken(i: int)
    ensures
        unbroken(int_text(i)),
{
    broadcast use lemma_unbroken_add;

    lemma_nat_text_unbroken(if i < 0 {
        (-i) as nat
    } else {
        i as nat
    });
}

proof fn lemma_nat_text_unbroken(n: nat)
    ensures
        unbroken(nat_text(n)),
    decreases n,
{
    broadcast use lemma_unbroken_add;

    if n >= 10 {
        lemma_nat_text_unbroken(n / 10);
    }
}

/// Parts and separator without line breaks join into text without them.
pub proof fn lemma_join_unbroken(parts: Seq<Seq<char>>, sep: Seq<char>)
    requires
        unbroken(sep),
        forall|i: int| 0 <= i < parts.len() ==> unbroken(#[trigger] parts[i]),
    ensures
        unbroken(join(parts, sep)),
    decreases parts.len(),
{
    broadcast use lemma_unbroken_add;

    if parts.len() > 1 {
        lemma_join_unbroken(parts.drop_last(), sep);
        assert(unbroken(parts.last()));
    } else if parts.len() == 1 {
        assert(unbroken(parts[0]));
    }
}

/// Lines without line breaks, joined by line breaks, hold one break fewer than
/// there are lines.
pub proof fn lemma_join_line_breaks(parts: Seq<Seq<char>>)
    requires
        parts.len() > 0,
        forall|i: int| 0 <= i < parts.len() ==> unbroken(#[trigger] parts[i]),
    ensures
        line_breaks(join(parts, "\n"@)) == parts.len() - 1,
    decreases parts.len(),
{
    if parts.len() == 1 {
        lemma_unbroken_count(parts[0]);
    } else {
        lemma_join_line_breaks(parts.drop_last());
        let a = join(parts.drop_last(), "\n"@);
        assert(unbroken(parts.last()));
        lemma_unbroken_count(parts.last());
        Seq::filter_distributes_over_add(a + "\n"@, parts.last(), break_pred());
        Seq::filter_distributes_over_add(a, "\n"@, break_pred());
        reveal_strlit("\n");
        reveal_with_fuel(Seq::filter, 2);
        assert("\n"@.drop_last() =~= Seq::<char>::empty());
        assert(line_breaks("\n"@) == 1);
    }
}

} // verus!
