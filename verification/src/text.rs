//! Text as sequences of characters: decimal numbers, splitting, searching.

use vstd::prelude::*;
use vstd::string::*;

verus! {

/// The views of a sequence of strings.
pub open spec fn texts(v: Seq<String>) -> Seq<Seq<char>> {
    Seq::new(v.len(), |i: int| v[i]@)
}

/// An ASCII digit.
pub open spec fn is_digit(c: char) -> bool {
    '0' <= c && c <= '9'
}

/// The number that a digit writes.
pub open spec fn digit_value(c: char) -> nat {
    (c as u32 - '0' as u32) as nat
}

/// The digit that writes `d`.
pub open spec fn digit_char(d: nat) -> char {
    if d == 0 {
        '0'
    } else if d == 1 {
        '1'
    } else if d == 2 {
        '2'
    } else if d == 3 {
        '3'
    } else if d == 4 {
        '4'
    } else if d == 5 {
        '5'
    } else if d == 6 {
        '6'
    } else if d == 7 {
        '7'
    } else if d == 8 {
        '8'
    } else {
        '9'
    }
}

/// Whether every character of `s` is a digit.
pub open spec fn all_digits(s: Seq<char>) -> bool {
    forall|i: int| 0 <= i < s.len() ==> is_digit(#[trigger] s[i])
}

/// The number that a run of decimal digits writes, most significant first.
pub open spec fn decimal_value(s: Seq<char>) -> nat
    decreases s.len(),
{
    if s.len() == 0 {
        0
    } else {
        decimal_value(s.drop_last()) * 10 + digit_value(s.last())
    }
}

/// What a text denotes when read as a decimal number no larger than `limit`:
/// one or more digits and nothing else.
pub open spec fn decimal_reading(s: Seq<char>, limit: nat) -> Option<nat> {
    if s.len() > 0 && all_digits(s) && decimal_value(s) <= limit {
        Some(decimal_value(s))
    } else {
        None
    }
}

/// The shortest decimal writing of `n`.
pub open spec fn decimal_text(n: nat) -> Seq<char>
    decreases n,
{
    if n < 10 {
        seq![digit_char(n)]
    } else {
        decimal_text(n / 10).push(digit_char(n % 10))
    }
}

/// The pieces of `s` between the occurrences of `sep`. A text without `sep`
/// is one piece; a text of n separators has n + 1 pieces.
pub open spec fn split(s: Seq<char>, sep: char) -> Seq<Seq<char>>
    decreases s.len(),
{
    if s.len() == 0 {
        seq![Seq::<char>::empty()]
    } else if s.last() == sep {
        split(s.drop_last(), sep).push(Seq::<char>::empty())
    } else {
        let p = split(s.drop_last(), sep);
        p.update(p.len() - 1, p.last().push(s.last()))
    }
}

/// Every text has a piece.
pub proof fn lemma_split_nonempty(s: Seq<char>, sep: char)
    ensures
        split(s, sep).len() >= 1,
    decreases s.len(),
{
    if s.len() > 0 {
        lemma_split_nonempty(s.drop_last(), sep);
    }
}

/// A text starts with its separator exactly when its first piece is empty
/// and another follows.
pub proof fn lemma_split_first(s: Seq<char>, sep: char)
    ensures
        split(s, sep).len() >= 1,
        (s.len() > 0 && s[0] == sep) <==> (split(s, sep)[0].len() == 0 && split(s, sep).len() > 1),
        split(s, sep).len() == 1 ==> split(s, sep)[0] == s,
    decreases s.len(),
{
    if s.len() > 0 {
        let head = s.drop_last();
        lemma_split_first(head, sep);
        let p = split(head, sep);
        if s.len() > 1 {
            assert(head[0] == s[0]);
        }
        if s.last() != sep && p.len() == 1 {
            assert(p[0].push(s.last()) == s);
        }
    }
}

/// A longer run of digits never writes a smaller number than its prefix.
pub proof fn lemma_decimal_prefix(s: Seq<char>, k: int)
    requires
        0 <= k <= s.len(),
    ensures
        decimal_value(s.subrange(0, k)) <= decimal_value(s),
    decreases s.len(),
{
    if k == s.len() {
        assert(s.subrange(0, k) == s);
    } else {
        lemma_decimal_prefix(s.drop_last(), k);
        assert(s.drop_last().subrange(0, k) == s.subrange(0, k));
    }
}

/// Reading back what `decimal_text` wrote gives the number.
pub proof fn lemma_decimal_text(n: nat)
    ensures
        decimal_text(n).len() > 0,
        all_digits(decimal_text(n)),
        decimal_value(decimal_text(n)) == n,
        n > 0 ==> decimal_text(n)[0] != '0',
    decreases n,
{
    if n < 10 {
        let t = decimal_text(n);
        assert(t.drop_last() == Seq::<char>::empty());
        assert(decimal_value(t.drop_last()) == 0);
    } else {
        lemma_decimal_text(n / 10);
        let t = decimal_text(n);
        assert(t.drop_last() == decimal_text(n / 10));
        assert(t.last() == digit_char(n % 10));
    }
}

/// Every piece followed by `sep`, one after the other.
pub open spec fn join_terminated(parts: Seq<Seq<char>>, sep: char) -> Seq<char>
    decreases parts.len(),
{
    if parts.len() == 0 {
        Seq::<char>::empty()
    } else {
        join_terminated(parts.drop_last(), sep) + parts.last().push(sep)
    }
}

/// Whether `c` does not occur in `s`.
pub open spec fn free_of(s: Seq<char>, c: char) -> bool {
    forall|i: int| 0 <= i < s.len() ==> #[trigger] s[i] != c
}

/// Text without a separator, added at the end, goes to the last piece.
pub proof fn lemma_split_append(s: Seq<char>, t: Seq<char>, sep: char)
    requires
        free_of(t, sep),
    ensures
        split(s + t, sep) == split(s, sep).update(
            split(s, sep).len() - 1,
            split(s, sep).last() + t,
        ),
    decreases t.len(),
{
    lemma_split_nonempty(s, sep);
    let p = split(s, sep);
    if t.len() == 0 {
        assert(s + t == s);
        assert(p.last() + t == p.last());
        assert(p.update(p.len() - 1, p.last()) == p);
    } else {
        let t0 = t.drop_last();
        assert(free_of(t0, sep));
        lemma_split_append(s, t0, sep);
        assert((s + t).drop_last() == s + t0);
        assert((s + t).last() == t.last());
        assert(t.last() == t[t.len() - 1]);
        let q = split(s + t0, sep);
        assert(q.last() == p.last() + t0);
        assert((p.last() + t0).push(t.last()) == p.last() + t);
        assert(q.update(q.len() - 1, q.last().push(t.last())) == p.update(
            p.len() - 1,
            p.last() + t,
        ));
    }
}

/// Splitting what `join_terminated` wrote gives the pieces back, and one
/// empty piece behind the last separator.
pub proof fn lemma_split_join(parts: Seq<Seq<char>>, sep: char)
    requires
        forall|i: int| 0 <= i < parts.len() ==> free_of(#[trigger] parts[i], sep),
    ensures
        split(join_terminated(parts, sep), sep) == parts.push(Seq::<char>::empty()),
    decreases parts.len(),
{
    if parts.len() == 0 {
    } else {
        let head = parts.drop_last();
        let j = join_terminated(head, sep);
        assert forall|i: int| 0 <= i < head.len() implies free_of(#[trigger] head[i], sep) by {
            assert(head[i] == parts[i]);
        }
        lemma_split_join(head, sep);
        assert(free_of(parts.last(), sep)) by {
            assert(parts.last() == parts[parts.len() - 1]);
        }
        lemma_split_append(j, parts.last(), sep);
        let whole = join_terminated(parts, sep);
        assert(whole == (j + parts.last()).push(sep));
        assert(whole.drop_last() == j + parts.last());
        assert(whole.last() == sep);
        let p = split(j, sep);
        assert(p == head.push(Seq::<char>::empty()));
        assert(p.last() + parts.last() == parts.last());
        assert(p.update(p.len() - 1, parts.last()) == parts);
    }
}

/// The first position at or after `from` that holds `c`, or the length of
/// `s` when there is none.
pub open spec fn first_at(s: Seq<char>, c: char, from: int) -> int
    decreases s.len() - from,
{
    if 0 <= from < s.len() && s[from] != c {
        first_at(s, c, from + 1)
    } else {
        from
    }
}

/// What `first_at` finds: the first position that holds `c`.
pub proof fn lemma_first_at(s: Seq<char>, c: char, from: int)
    requires
        0 <= from <= s.len(),
    ensures
        from <= first_at(s, c, from) <= s.len(),
        first_at(s, c, from) < s.len() ==> s[first_at(s, c, from)] == c,
        forall|k: int| from <= k < first_at(s, c, from) ==> s[k] != c,
    decreases s.len() - from,
{
    if from < s.len() && s[from] != c {
        lemma_first_at(s, c, from + 1);
    }
}

/// What a text denotes when read as an unsigned number no larger than
/// `limit`: digits, with or without a `+` before them.
pub open spec fn unsigned_reading(s: Seq<char>, limit: nat) -> Option<nat> {
    if s.len() > 0 && s[0] == '+' {
        decimal_reading(s.subrange(1, s.len() as int), limit)
    } else {
        decimal_reading(s, limit)
    }
}

/// The characters of `s`, in order.
pub fn chars_of(s: &str) -> (v: Vec<char>)
    ensures
        v@ == s@,
{
    let mut v: Vec<char> = Vec::new();
    for c in it: s.chars()
        invariant
            it.seq() == s@,
            v@ == s@.subrange(0, it.index()),
    {
        v.push(c);
        assert(v@ =~= s@.subrange(0, it.index() + 1));
    }
    assert(s@.subrange(0, s@.len() as int) == s@);
    v
}

/// Whether two texts are the same.
pub fn same_text(a: &str, b: &str) -> (r: bool)
    ensures
        r == (a@ == b@),
{
    let x = chars_of(a);
    let y = chars_of(b);
    let n: usize = x.len();
    if n != y.len() {
        return false;
    }
    let mut i: usize = 0;
    while i < n
        invariant
            x@ == a@,
            y@ == b@,
            n == x.len() == y.len(),
            i <= n,
            forall|k: int| 0 <= k < i ==> x[k] == y[k],
        decreases n - i,
    {
        if x[i] != y[i] {
            return false;
        }
        i += 1;
    }
    assert(a@ =~= b@);
    true
}

/// Whether `c` is an ASCII digit.
pub fn is_ascii_digit(c: char) -> (b: bool)
    ensures
        b == is_digit(c),
{
    c >= '0' && c <= '9'
}

fn digit_of(c: char) -> (d: u64)
    requires
        is_digit(c),
    ensures
        d == digit_value(c),
        d <= 9,
{
    (c as u32 - '0' as u32) as u64
}

/// Reads `v[from..to]` as a decimal number no larger than `limit`.
pub fn parse_decimal(v: &Vec<char>, from: usize, to: usize, limit: u64) -> (r: Option<u64>)
    requires
        from <= to <= v.len(),
    ensures
        match decimal_reading(v@.subrange(from as int, to as int), limit as nat) {
            Some(n) => r == Some(n as u64),
            None => r is None,
        },
{
    let ghost s = v@.subrange(from as int, to as int);
    if from == to {
        return None;
    }
    let mut acc: u64 = 0;
    let mut i: usize = from;
    while i < to
        invariant
            from <= i <= to <= v.len(),
            s == v@.subrange(from as int, to as int),
            all_digits(s.subrange(0, i - from)),
            acc == decimal_value(s.subrange(0, i - from)),
            acc <= limit,
        decreases to - i,
    {
        let c = v[i];
        let ghost pre = s.subrange(0, i - from);
        let ghost cur = s.subrange(0, i - from + 1);
        proof {
            assert(cur.drop_last() == pre);
            assert(cur.last() == c);
            assert(s[i - from] == c);
        }
        if !is_ascii_digit(c) {
            assert(!all_digits(s));
            return None;
        }
        let d = digit_of(c);
        if d > limit || acc > (limit - d) / 10 {
            proof {
                assert(decimal_value(cur) == acc * 10 + d);
                assert(decimal_value(cur) > limit);
                lemma_decimal_prefix(s, i - from + 1);
            }
            return None;
        }
        acc = acc * 10 + d;
        assert forall|k: int| 0 <= k < cur.len() implies is_digit(#[trigger] cur[k]) by {
            if k < pre.len() {
                assert(cur[k] == pre[k]);
            }
        }
        i += 1;
    }
    assert(s.subrange(0, to - from) == s);
    Some(acc)
}

/// Reads `v[from..to]` as an unsigned number no larger than `limit`.
pub fn parse_unsigned(v: &Vec<char>, from: usize, to: usize, limit: u64) -> (r: Option<u64>)
    requires
        from <= to <= v.len(),
    ensures
        match unsigned_reading(v@.subrange(from as int, to as int), limit as nat) {
            Some(n) => r == Some(n as u64),
            None => r is None,
        },
{
    let ghost s = v@.subrange(from as int, to as int);
    if from < to && v[from] == '+' {
        assert(s[0] == v[from as int]);
        assert(s.subrange(1, s.len() as int) == v@.subrange(from + 1, to as int));
        parse_decimal(v, from + 1, to, limit)
    } else {
        if from < to {
            assert(s[0] == v[from as int]);
        }
        parse_decimal(v, from, to, limit)
    }
}

fn digit_text(d: u64) -> (t: &'static str)
    requires
        d <= 9,
    ensures
        t@ == seq![digit_char(d as nat)],
{
    proof {
        reveal_strlit("0");
        reveal_strlit("1");
        reveal_strlit("2");
        reveal_strlit("3");
        reveal_strlit("4");
        reveal_strlit("5");
        reveal_strlit("6");
        reveal_strlit("7");
        reveal_strlit("8");
        reveal_strlit("9");
    }
    let t = if d == 0 {
        "0"
    } else if d == 1 {
        "1"
    } else if d == 2 {
        "2"
    } else if d == 3 {
        "3"
    } else if d == 4 {
        "4"
    } else if d == 5 {
        "5"
    } else if d == 6 {
        "6"
    } else if d == 7 {
        "7"
    } else if d == 8 {
        "8"
    } else {
        "9"
    };
    assert(t@ =~= seq![digit_char(d as nat)]);
    t
}

/// Writes `n` in decimal, without leading zeros.
pub fn format_decimal(n: u64) -> (r: String)
    ensures
        r@ == decimal_text(n as nat),
    decreases n,
{
    if n < 10 {
        String::from_str(digit_text(n))
    } else {
        let mut r = format_decimal(n / 10);
        r.append(digit_text(n % 10));
        assert(r@ =~= decimal_text(n as nat));
        r
    }
}

/// Cuts `s` at every occurrence of `sep`.
pub fn split_text(s: &str, sep: char) -> (r: Vec<String>)
    ensures
        texts(r@) == split(s@, sep),
{
    let v = chars_of(s);
    let n: usize = v.len();
    let mut done: Vec<String> = Vec::new();
    let mut start: usize = 0;
    let mut i: usize = 0;
    proof {
        assert(s@.subrange(0, 0) == Seq::<char>::empty());
        assert(texts(done@).push(s@.subrange(0, 0)) == seq![Seq::<char>::empty()]);
    }
    while i < n
        invariant
            v@ == s@,
            n == v.len(),
            start <= i <= n,
            split(s@.subrange(0, i as int), sep) == texts(done@).push(
                s@.subrange(start as int, i as int),
            ),
        decreases n - i,
    {
        let ghost pre = s@.subrange(0, i as int);
        let ghost cur = s@.subrange(0, i + 1);
        let ghost before = texts(done@);
        let ghost tail = s@.subrange(start as int, i as int);
        proof {
            assert(cur.drop_last() == pre);
            assert(cur.last() == v[i as int]);
            assert(split(pre, sep) == before.push(tail));
        }
        if v[i] == sep {
            let piece = s.substring_char(start, i);
            done.push(String::from_str(piece));
            start = i + 1;
            proof {
                assert(texts(done@) == before.push(tail));
                assert(s@.subrange(start as int, i + 1) == Seq::<char>::empty());
                assert(split(cur, sep) == before.push(tail).push(Seq::<char>::empty()));
            }
        } else {
            proof {
                let p = split(pre, sep);
                assert(p.last() == tail);
                assert(tail.push(v[i as int]) == s@.subrange(start as int, i + 1));
                assert(p.update(p.len() - 1, p.last().push(cur.last())) == before.push(
                    s@.subrange(start as int, i + 1),
                ));
            }
        }
        i += 1;
    }
    assert(s@.subrange(0, n as int) == s@);
    let piece = s.substring_char(start, n);
    let ghost before = texts(done@);
    done.push(String::from_str(piece));
    assert(texts(done@) == before.push(s@.subrange(start as int, n as int)));
    done
}

} // verus!
