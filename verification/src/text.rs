//! Reading and building text, character by character.
use vstd::prelude::*;

verus! {

/// The characters that Unicode calls white space.
pub open spec fn whitespace(c: char) -> bool {
    ||| 0x09 <= c as int <= 0x0d
    ||| c as int == 0x20
    ||| c as int == 0x85
    ||| c as int == 0xa0
    ||| c as int == 0x1680
    ||| 0x2000 <= c as int <= 0x200a
    ||| c as int == 0x2028
    ||| c as int == 0x2029
    ||| c as int == 0x202f
    ||| c as int == 0x205f
    ||| c as int == 0x3000
}

/// `s` without the white space at its start.
pub open spec fn trimmed_start(s: Seq<char>) -> Seq<char>
    decreases s.len(),
{
    if s.len() > 0 && whitespace(s.first()) {
        trimmed_start(s.drop_first())
    } else {
        s
    }
}

/// `s` without the white space at its end.
pub open spec fn trimmed_end(s: Seq<char>) -> Seq<char>
    decreases s.len(),
{
    if s.len() > 0 && whitespace(s.last()) {
        trimmed_end(s.drop_last())
    } else {
        s
    }
}

/// `s` without the white space around it.
pub open spec fn trimmed(s: Seq<char>) -> Seq<char> {
    trimmed_end(trimmed_start(s))
}

/// The part of `s` behind its last character that satisfies `stop`; all of `s`
/// if there is none.
pub open spec fn behind_last(s: Seq<char>, stop: spec_fn(char) -> bool) -> Seq<char>
    decreases s.len(),
{
    if s.len() == 0 || stop(s.last()) {
        seq![]
    } else {
        behind_last(s.drop_last(), stop).push(s.last())
    }
}

/// The position of the first character of `s` that satisfies `p`; the length
/// of `s` if none does.
pub open spec fn first_place(s: Seq<char>, p: spec_fn(char) -> bool) -> int
    decreases s.len(),
{
    if s.len() == 0 || p(s[0]) {
        0
    } else {
        1 + first_place(s.drop_first(), p)
    }
}

/// The last of the lines of `s`. A line ends before a line feed, or before a
/// carriage return and a line feed; a line feed at the very end opens no
/// further line. The empty text has no line.
pub open spec fn last_line_of(s: Seq<char>) -> Option<Seq<char>> {
    if s.len() == 0 {
        None
    } else if s.last() == '\n' {
        let line = behind_last(s.drop_last(), |c: char| c == '\n');
        Some(
            if line.len() > 0 && line.last() == '\r' {
                line.drop_last()
            } else {
                line
            },
        )
    } else {
        Some(behind_last(s, |c: char| c == '\n'))
    }
}

/// The character of the decimal digit `d`.
pub open spec fn digit_char(d: int) -> char {
    (0x30 + d) as char
}

/// `n` in decimal, without leading zeros.
pub open spec fn decimal_of(n: nat) -> Seq<char>
    decreases n,
{
    if n < 10 {
        seq![digit_char(n as int)]
    } else {
        decimal_of(n / 10).push(digit_char((n % 10) as int))
    }
}

/// The last `width` digits of `n` in decimal, zeros in front where it has fewer.
pub open spec fn padded_decimal_of(n: nat, width: nat) -> Seq<char>
    decreases width,
{
    if width == 0 {
        seq![]
    } else {
        padded_decimal_of(n / 10, (width - 1) as nat).push(digit_char((n % 10) as int))
    }
}

/// What the texts say.
pub open spec fn text_views(v: Seq<String>) -> Seq<Seq<char>> {
    v.map_values(|s: String| s@)
}

/// What an optional text says.
pub open spec fn optional_view(s: Option<String>) -> Option<Seq<char>> {
    match s {
        Some(t) => Some(t@),
        None => None,
    }
}

/// Whether `c` is white space.
pub fn is_whitespace(c: char) -> (r: bool)
    ensures
        r == whitespace(c),
{
    let u: u32 = c as u32;
    (0x09 <= u && u <= 0x0d) || u == 0x20 || u == 0x85 || u == 0xa0 || u == 0x1680 || (0x2000 <= u
        && u <= 0x200a) || u == 0x2028 || u == 0x2029 || u == 0x202f || u == 0x205f || u == 0x3000
}

/// The characters of `s`, in order.
pub fn chars_of(s: &str) -> (v: Vec<char>)
    ensures
        v@ == s@,
{
    let mut v: Vec<char> = Vec::new();
    for c in it: s.chars()
        invariant
            v@ == it.seq().take(it.index() as int),
            it.seq() == s@,
    {
        v.push(c);
    }
    v
}

/// The characters of `s` from position `from` to before position `to`.
pub fn slice_of(s: &str, from: usize, to: usize) -> (r: String)
    requires
        from <= to <= s@.len(),
    ensures
        r@ == s@.subrange(from as int, to as int),
{
    s.substring_char(from, to).to_owned()
}

/// `s` without the white space around it.
pub fn trim(s: &str) -> (r: String)
    ensures
        r@ == trimmed(s@),
{
    let v = chars_of(s);
    let n: usize = v.len();
    let mut a: usize = 0;
    assert(s@.skip(0) == s@);
    while a < n && is_whitespace(v[a])
        invariant
            a <= n == v.len(),
            v@ == s@,
            trimmed_start(s@) == trimmed_start(s@.skip(a as int)),
        decreases n - a,
    {
        assert(s@.skip(a as int).drop_first() == s@.skip(a + 1));
        a = a + 1;
    }
    let mut b: usize = n;
    assert(s@.subrange(a as int, b as int) == s@.skip(a as int));
    while a < b && is_whitespace(v[b - 1])
        invariant
            a <= b <= n == v.len(),
            v@ == s@,
            trimmed(s@) == trimmed_end(s@.subrange(a as int, b as int)),
        decreases b,
    {
        assert(s@.subrange(a as int, b as int).drop_last() == s@.subrange(a as int, b - 1));
        b = b - 1;
    }
    slice_of(s, a, b)
}

/// Whether `s` begins with `prefix`.
pub fn starts_with(s: &str, prefix: &str) -> (r: bool)
    ensures
        r == prefix@.is_prefix_of(s@),
{
    let v = chars_of(s);
    let p = chars_of(prefix);
    if p.len() > v.len() {
        return false;
    }
    let mut i: usize = 0;
    while i < p.len()
        invariant
            i <= p.len() <= v.len(),
            v@ == s@,
            p@ == prefix@,
            forall|k: int| 0 <= k < i ==> v[k] == p[k],
        decreases p.len() - i,
    {
        if v[i] != p[i] {
            assert(s@.subrange(0, prefix@.len() as int)[i as int] != prefix@[i as int]);
            return false;
        }
        i = i + 1;
    }
    assert(s@.subrange(0, prefix@.len() as int) == prefix@);
    true
}

/// The first character that satisfies `p` is the one with none before it.
pub proof fn lemma_first_place(s: Seq<char>, p: spec_fn(char) -> bool, at: int)
    requires
        0 <= at <= s.len(),
        forall|k: int| 0 <= k < at ==> !p(#[trigger] s[k]),
        at < s.len() ==> p(s[at]),
    ensures
        first_place(s, p) == at,
    decreases s.len(),
{
    if at > 0 {
        assert(!p(s[0]));
        assert forall|k: int| 0 <= k < at - 1 implies !p(#[trigger] s.drop_first()[k]) by {
            assert(!p(s[k + 1]));
        }
        lemma_first_place(s.drop_first(), p, at - 1);
    }
}

/// The part of `s` behind its last character that satisfies `stop` is a suffix,
/// which starts at the only position with nothing to stop at behind it and a
/// stop before it.
pub proof fn lemma_behind_last(s: Seq<char>, stop: spec_fn(char) -> bool, from: int)
    requires
        0 <= from <= s.len(),
        forall|k: int| from <= k < s.len() ==> !stop(#[trigger] s[k]),
        from == 0 || stop(s[from - 1]),
    ensures
        behind_last(s, stop) == s.skip(from),
    decreases s.len(),
{
    if from == s.len() {
        assert(s.skip(from) == Seq::<char>::empty());
    } else {
        assert(!stop(s[s.len() - 1]));
        lemma_behind_last(s.drop_last(), stop, from);
        assert(s.drop_last().skip(from).push(s.last()) == s.skip(from));
    }
}

/// The last line of `s`, if it has any.
pub fn last_line(s: &str) -> (r: Option<String>)
    ensures
        match r {
            Some(line) => last_line_of(s@) == Some(line@),
            None => last_line_of(s@) is None,
        },
{
    let v = chars_of(s);
    let n: usize = v.len();
    if n == 0 {
        return None;
    }
    let ended: bool = v[n - 1] == '\n';
    let mut to: usize = if ended {
        n - 1
    } else {
        n
    };
    let ghost body = s@.take(to as int);
    let ghost stop = |c: char| c == '\n';
    let mut from: usize = to;
    while from > 0 && v[from - 1] != '\n'
        invariant
            from <= to <= n == v.len(),
            v@ == s@,
            forall|k: int| from <= k < to ==> s@[k] != '\n',
        decreases from,
    {
        from = from - 1;
    }
    proof {
        lemma_behind_last(body, stop, from as int);
        assert(body.skip(from as int) == s@.subrange(from as int, to as int));
        if ended {
            assert(body == s@.drop_last());
        } else {
            assert(body == s@);
        }
    }
    if ended && from < to && v[to - 1] == '\r' {
        proof {
            assert(s@.subrange(from as int, to as int).drop_last() == s@.subrange(
                from as int,
                to - 1,
            ));
        }
        to = to - 1;
    }
    Some(slice_of(s, from, to))
}

/// Appends the decimal digit `d` to `s`.
fn push_digit(s: &mut String, d: u128)
    requires
        d < 10,
    ensures
        final(s)@ == old(s)@.push(digit_char(d as int)),
{
    proof {
        reveal_strlit("0");
        reveal_strlit("1");
        reveal_strlit("2");
        reveal_strlit("3");
        reveal_strlit("4");
        reveal_strlit("5");
        reveal_strlit("6");
        reveal_strlit("7");
        reveal_strlit("8");
        reveal_strlit("9");
    }
    let ghost before = s@;
    if d == 0 {
        s.append("0");
    } else if d == 1 {
        s.append("1");
    } else if d == 2 {
        s.append("2");
    } else if d == 3 {
        s.append("3");
    } else if d == 4 {
        s.append("4");
    } else if d == 5 {
        s.append("5");
    } else if d == 6 {
        s.append("6");
    } else if d == 7 {
        s.append("7");
    } else if d == 8 {
        s.append("8");
    } else {
        s.append("9");
    }
    assert(s@ == before.push(digit_char(d as int)));
}

/// Appends `n` in decimal to `s`.
pub fn push_decimal(s: &mut String, n: u128)
    ensures
        final(s)@ == old(s)@ + decimal_of(n as nat),
    decreases n,
{
    let ghost before = s@;
    if n >= 10 {
        push_decimal(s, n / 10);
    }
    push_digit(s, n % 10);
    assert(s@ == before + decimal_of(n as nat));
}

/// Appends the last `width` digits of `n` to `s`.
pub fn push_padded_decimal(s: &mut String, n: u128, width: usize)
    ensures
        final(s)@ == old(s)@ + padded_decimal_of(n as nat, width as nat),
    decreases width,
{
    let ghost before = s@;
    if width > 0 {
        push_padded_decimal(s, n / 10, width - 1);
        push_digit(s, n % 10);
    }
    assert(s@ == before + padded_decimal_of(n as nat, width as nat));
}

/// `a` followed by `b`.
pub fn joined(a: &str, b: &str) -> (r: String)
    ensures
        r@ == a@ + b@,
{
    let mut s = a.to_owned();
    s.append(b);
    s
}

proof fn lemma_trimmed_start(s: Seq<char>)
    ensures
        trimmed_start(s).len() > 0 ==> !whitespace(trimmed_start(s).first()),
        trimmed_start(s).len() <= s.len(),
        trimmed_start(s) == s.skip(s.len() - trimmed_start(s).len()),
        forall|k: int| 0 <= k < s.len() - trimmed_start(s).len() ==> whitespace(#[trigger] s[k]),
    decreases s.len(),
{
    if s.len() > 0 && whitespace(s.first()) {
        let rest = s.drop_first();
        lemma_trimmed_start(rest);
        assert forall|k: int| 0 <= k < s.len() - trimmed_start(s).len() implies whitespace(
            #[trigger] s[k],
        ) by {
            if k > 0 {
                assert(rest[k - 1] == s[k]);
            }
        }
        assert(rest.skip(rest.len() - trimmed_start(rest).len()) == s.skip(
            s.len() - trimmed_start(s).len(),
        ));
    } else {
        assert(s.skip(0) == s);
    }
}

proof fn lemma_trimmed_end(s: Seq<char>)
    ensures
        trimmed_end(s).len() > 0 ==> !whitespace(trimmed_end(s).last()),
        trimmed_end(s).len() <= s.len(),
        trimmed_end(s) == s.take(trimmed_end(s).len() as int),
        forall|k: int| trimmed_end(s).len() <= k < s.len() ==> whitespace(#[trigger] s[k]),
    decreases s.len(),
{
    if s.len() > 0 && whitespace(s.last()) {
        let rest = s.drop_last();
        lemma_trimmed_end(rest);
        assert forall|k: int| trimmed_end(s).len() <= k < s.len() implies whitespace(
            #[trigger] s[k],
        ) by {
            if k < rest.len() {
                assert(rest[k] == s[k]);
            }
        }
        assert(rest.take(trimmed_end(rest).len() as int) == s.take(trimmed_end(s).len() as int));
    } else {
        assert(s.take(s.len() as int) == s);
    }
}

/// Trimming takes white space from both ends and nothing else: `s` is its
/// trimmed text between two stretches of white space, the trimmed text neither
/// starts nor ends with white space, and trimming it again changes nothing.
pub proof fn law_trimmed(s: Seq<char>)
    ensures
        trimmed(s).len() > 0 ==> !whitespace(trimmed(s).first()) && !whitespace(trimmed(s).last()),
        trimmed(trimmed(s)) == trimmed(s),
        exists|from: int|
            0 <= from <= from + trimmed(s).len() <= s.len() && #[trigger] s.subrange(
                from,
                from + trimmed(s).len(),
            ) == trimmed(s) && (forall|k: int|
                0 <= k < from || from + trimmed(s).len() <= k < s.len() ==> whitespace(
                    #[trigger] s[k],
                )),
{
    let inner = trimmed_start(s);
    lemma_trimmed_start(s);
    lemma_trimmed_end(inner);
    let from = s.len() - inner.len();
    let t = trimmed(s);
    assert(s.subrange(from, from + t.len()) == t);
    assert forall|k: int| 0 <= k < from || from + t.len() <= k < s.len() implies whitespace(
        #[trigger] s[k],
    ) by {
        if k >= from {
            assert(inner[k - from] == s[k]);
        }
    }
    if t.len() > 0 {
        assert(t.first() == inner.first());
        assert(trimmed_start(t) == t);
    }
}

/// The first place lies within the text or at its end; nothing before it satisfies
/// `p`, and what stands there does.
pub proof fn lemma_first_place_bounds(s: Seq<char>, p: spec_fn(char) -> bool)
    ensures
        0 <= first_place(s, p) <= s.len(),
        forall|k: int| 0 <= k < first_place(s, p) ==> !p(#[trigger] s[k]),
        first_place(s, p) < s.len() ==> p(s[first_place(s, p)]),
    decreases s.len(),
{
    if s.len() > 0 && !p(s[0]) {
        let rest = s.drop_first();
        lemma_first_place_bounds(rest, p);
        assert forall|k: int| 0 <= k < first_place(s, p) implies !p(#[trigger] s[k]) by {
            if k > 0 {
                assert(rest[k - 1] == s[k]);
            }
        }
    }
}

/// The last line is what stands behind the last line feed but one at the very end,
/// whatever stands before it, and without the carriage return that ends it together
/// with that one.
pub proof fn law_last_line(front: Seq<char>, line: Seq<char>)
    requires
        line.len() > 0,
        !line.contains('\n'),
        line.last() != '\r',
        front.len() > 0 ==> front.last() == '\n',
    ensures
        last_line_of(front + line) == Some(line),
        last_line_of(front + line + seq!['\n']) == Some(line),
        last_line_of(front + line + seq!['\r', '\n']) == Some(line),
        last_line_of(seq![]) is None,
{
    let stop = |c: char| c == '\n';
    let s = front + line;
    let n = front.len() as int;
    assert forall|k: int| n <= k < s.len() implies !stop(#[trigger] s[k]) by {
        assert(line.contains(line[k - n]));
    }
    lemma_behind_last(s, stop, n);
    assert(s.skip(n) == line);
    assert(s.last() == line.last());
    assert(line.contains(line[line.len() - 1]));
    let a = s + seq!['\n'];
    assert(a.drop_last() == s);
    let b = s + seq!['\r', '\n'];
    let t = b.drop_last();
    assert(t == s + seq!['\r']);
    assert forall|k: int| n <= k < t.len() implies !stop(#[trigger] t[k]) by {
        if k < s.len() {
            assert(t[k] == s[k]);
        }
    }
    lemma_behind_last(t, stop, n);
    assert(t.skip(n) == line + seq!['\r']);
    assert((line + seq!['\r']).drop_last() == line);
}

} // verus!
