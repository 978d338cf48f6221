use vstd::prelude::*;
use vstd::string::StringExecFns;

verus! {

/// The characters that separate tokens: those with the Unicode White_Space
/// property, as `char::is_whitespace` takes them.
pub open spec fn is_ws(c: char) -> bool {
    ('\u{9}' <= c && c <= '\u{d}') || c == ' ' || c == '\u{85}' || c == '\u{a0}'
        || c == '\u{1680}' || ('\u{2000}' <= c && c <= '\u{200a}') || c == '\u{2028}'
        || c == '\u{2029}' || c == '\u{202f}' || c == '\u{205f}' || c == '\u{3000}'
}

pub open spec fn is_hex_digit(c: char) -> bool {
    ('0' <= c && c <= '9') || ('a' <= c && c <= 'f') || ('A' <= c && c <= 'F')
}

pub open spec fn digit_val(c: char) -> nat {
    if '0' <= c && c <= '9' {
        (c as u32 - 48) as nat
    } else if 'a' <= c && c <= 'f' {
        (c as u32 - 87) as nat
    } else if 'A' <= c && c <= 'F' {
        (c as u32 - 55) as nat
    } else {
        0
    }
}

/// The value of a sequence of base-16 digits, most significant first.
pub open spec fn hex_value(s: Seq<char>) -> nat
    decreases s.len(),
{
    if s.len() == 0 {
        0
    } else {
        hex_value(s.drop_last()) * 16 + digit_val(s.last())
    }
}

pub open spec fn u64_limit() -> nat {
    18446744073709551616
}

/// A base-16 integer: one or more digits, of either case, whose value fits in 64 bits.
pub open spec fn parse_hex(s: Seq<char>) -> Option<u64> {
    if s.len() > 0 && (forall|i: int| 0 <= i < s.len() ==> is_hex_digit(#[trigger] s[i]))
        && hex_value(s) < u64_limit() {
        Some(hex_value(s) as u64)
    } else {
        None
    }
}

pub open spec fn hex_alphabet() -> Seq<char> {
    seq!['0', '1', '2', '3', '4', '5', '6', '7', '8', '9', 'a', 'b', 'c', 'd', 'e', 'f']
}

/// The shortest base-16 form of `v` in lower case.
pub open spec fn hex_digits(v: nat) -> Seq<char>
    decreases v,
{
    if v < 16 {
        seq![hex_alphabet()[v as int]]
    } else {
        hex_digits(v / 16).push(hex_alphabet()[(v % 16) as int])
    }
}

/// The first position at or after `i` that does not hold whitespace.
pub open spec fn skip_ws(s: Seq<char>, i: int) -> int
    decreases s.len() - i,
{
    if i < 0 || i >= s.len() || !is_ws(s[i]) {
        i
    } else {
        skip_ws(s, i + 1)
    }
}

/// The first position at or after `i` that holds whitespace, or the end.
pub open spec fn tok_end(s: Seq<char>, i: int) -> int
    decreases s.len() - i,
{
    if i < 0 || i >= s.len() || is_ws(s[i]) {
        i
    } else {
        tok_end(s, i + 1)
    }
}

/// The bounds of the next whitespace-separated token at or after `pos`, if any.
pub open spec fn next_tok(s: Seq<char>, pos: int) -> Option<(int, int)> {
    let a = skip_ws(s, pos);
    if a >= s.len() {
        None
    } else {
        Some((a, tok_end(s, a)))
    }
}

proof fn lemma_alphabet(d: nat)
    requires
        d < 16,
    ensures
        is_hex_digit(hex_alphabet()[d as int]),
        !is_ws(hex_alphabet()[d as int]),
        digit_val(hex_alphabet()[d as int]) == d,
{
}

/// The shortest base-16 form of `v` is made of digits, has no whitespace, and
/// reads back as `v`.
pub proof fn lemma_hex_digits(v: nat)
    ensures
        hex_digits(v).len() > 0,
        forall|i: int|
            0 <= i < hex_digits(v).len() ==> is_hex_digit(#[trigger] hex_digits(v)[i]) && !is_ws(
                hex_digits(v)[i],
            ),
        hex_value(hex_digits(v)) == v,
    decreases v,
{
    if v < 16 {
        lemma_alphabet(v);
        assert(seq![hex_alphabet()[v as int]].drop_last() =~= Seq::<char>::empty());
        assert(hex_value(Seq::<char>::empty()) == 0);
        assert(hex_value(hex_digits(v)) == 0 * 16 + digit_val(hex_alphabet()[v as int]));
    } else {
        lemma_hex_digits(v / 16);
        lemma_alphabet(v % 16);
        let d = hex_digits(v / 16);
        assert(d.push(hex_alphabet()[(v % 16) as int]).drop_last() =~= d);
        assert(hex_value(hex_digits(v)) == (v / 16) * 16 + v % 16);
    }
}

proof fn lemma_hex_value_grows(s: Seq<char>, i: int, j: int)
    requires
        0 <= i <= j <= s.len(),
    ensures
        hex_value(s.subrange(0, i)) <= hex_value(s.subrange(0, j)),
    decreases j - i,
{
    if i < j {
        lemma_hex_value_grows(s, i, j - 1);
        assert(s.subrange(0, j).drop_last() =~= s.subrange(0, j - 1));
    }
}

/// The digit of `d` as a one-character string.
fn digit_str(d: u64) -> (r: &'static str)
    requires
        d < 16,
    ensures
        r@ == seq![hex_alphabet()[d as int]],
{
    let all = "0123456789abcdef";
    proof {
        reveal_strlit("0123456789abcdef");
        assert(all@ =~= hex_alphabet());
        assert(all.is_ascii());
    }
    let r = all.substring_ascii(d as usize, d as usize + 1);
    proof {
        assert(r@ =~= seq![hex_alphabet()[d as int]]);
    }
    r
}

/// Appends the shortest base-16 form of `v`.
pub fn push_hex(out: &mut String, v: u64)
    ensures
        final(out)@ == old(out)@ + hex_digits(v as nat),
    decreases v,
{
    if v >= 16 {
        push_hex(out, v / 16);
    }
    out.append(digit_str(v % 16));
    assert(final(out)@ =~= old(out)@ + hex_digits(v as nat));
}

/// Reads `s[from..to]` as a base-16 integer.
pub fn parse_hex_range(s: &Vec<char>, from: usize, to: usize) -> (r: Option<u64>)
    requires
        from <= to <= s@.len(),
    ensures
        r == parse_hex(s@.subrange(from as int, to as int)),
{
    let ghost t = s@.subrange(from as int, to as int);
    if from == to {
        return None;
    }
    let mut acc: u64 = 0;
    let mut i: usize = from;
    while i < to
        invariant
            from <= i <= to <= s@.len(),
            t == s@.subrange(from as int, to as int),
            acc == hex_value(t.subrange(0, i - from)),
            forall|j: int| 0 <= j < i - from ==> is_hex_digit(#[trigger] t[j]),
        decreases to - i,
    {
        let c = s[i];
        let d: u64 = if '0' <= c && c <= '9' {
            (c as u32 - 48) as u64
        } else if 'a' <= c && c <= 'f' {
            (c as u32 - 87) as u64
        } else if 'A' <= c && c <= 'F' {
            (c as u32 - 55) as u64
        } else {
            assert(!is_hex_digit(t[i - from]));
            return None;
        };
        proof {
            assert(t.subrange(0, i - from + 1).drop_last() =~= t.subrange(0, i - from));
        }
        if acc >= 0x1000_0000_0000_0000 {
            proof {
                lemma_hex_value_grows(t, i - from + 1, t.len() as int);
                assert(t.subrange(0, t.len() as int) =~= t);
            }
            return None;
        }
        acc = acc * 16 + d;
        i = i + 1;
    }
    proof {
        assert(t.subrange(0, t.len() as int) =~= t);
    }
    Some(acc)
}

/// The limit of a signed 32-bit integer: `2^31`.
pub open spec fn i32_limit() -> nat {
    2147483648
}

/// A signed base-16 integer of 32 bits: an optional `+` or `-`, then digits
/// whose value is at most `2^31 - 1`, or `2^31` after `-`. Gives whether
/// the value is non-zero.
pub open spec fn parse_flag(t: Seq<char>) -> Option<bool> {
    let neg = t.len() > 0 && t[0] == '-';
    let digits = if t.len() > 0 && (t[0] == '+' || t[0] == '-') {
        t.drop_first()
    } else {
        t
    };
    match parse_hex(digits) {
        Some(v) => if v < i32_limit() || (neg && v == i32_limit()) {
            Some(v != 0)
        } else {
            None
        },
        None => None,
    }
}

/// Reads `s[from..to]` as a signed base-16 integer of 32 bits; gives whether it
/// is non-zero.
pub fn parse_flag_range(s: &Vec<char>, from: usize, to: usize) -> (r: Option<bool>)
    requires
        from <= to <= s@.len(),
    ensures
        r == parse_flag(s@.subrange(from as int, to as int)),
{
    let ghost t = s@.subrange(from as int, to as int);
    let mut start = from;
    let mut neg = false;
    if from < to && (s[from] == '+' || s[from] == '-') {
        neg = s[from] == '-';
        start = from + 1;
        assert(t.drop_first() =~= s@.subrange(start as int, to as int));
    } else {
        assert(t =~= s@.subrange(start as int, to as int));
    }
    match parse_hex_range(s, start, to) {
        Some(v) => {
            if v < 0x8000_0000 || (neg && v == 0x8000_0000) {
                Some(v != 0)
            } else {
                None
            }
        },
        None => None,
    }
}

/// An unsigned base-16 integer of 64 bits: an optional `+`, then digits.
pub open spec fn parse_coord(t: Seq<char>) -> Option<u64> {
    if t.len() > 0 && t[0] == '+' {
        parse_hex(t.drop_first())
    } else {
        parse_hex(t)
    }
}

/// Reads `s[from..to]` as an unsigned base-16 integer of 64 bits.
pub fn parse_coord_range(s: &Vec<char>, from: usize, to: usize) -> (r: Option<u64>)
    requires
        from <= to <= s@.len(),
    ensures
        r == parse_coord(s@.subrange(from as int, to as int)),
{
    let ghost t = s@.subrange(from as int, to as int);
    if from < to && s[from] == '+' {
        assert(t.drop_first() =~= s@.subrange(from + 1, to as int));
        parse_hex_range(s, from + 1, to)
    } else {
        parse_hex_range(s, from, to)
    }
}

/// Reads `k` unsigned base-16 tokens from position `pos`: their values and the
/// position after the last one, or none when a token is missing or is no such
/// integer.
pub open spec fn read_fields(s: Seq<char>, pos: int, k: nat) -> Option<(Seq<u64>, int)>
    decreases k,
{
    if k == 0 {
        Some((Seq::empty(), pos))
    } else {
        match next_tok(s, pos) {
            None => None,
            Some((a, b)) => match parse_coord(s.subrange(a, b)) {
                None => None,
                Some(v) => match read_fields(s, b, (k - 1) as nat) {
                    None => None,
                    Some((vs, e)) => Some((seq![v] + vs, e)),
                },
            },
        }
    }
}

/// The values written in base 16 and separated by single spaces.
pub open spec fn join(vs: Seq<u64>) -> Seq<char>
    decreases vs.len(),
{
    if vs.len() == 0 {
        Seq::empty()
    } else if vs.len() == 1 {
        hex_digits(vs[0] as nat)
    } else {
        join(vs.drop_last()) + seq![' '] + hex_digits(vs.last() as nat)
    }
}

proof fn lemma_join_front(vs: Seq<u64>)
    requires
        vs.len() >= 2,
    ensures
        join(vs) == hex_digits(vs[0] as nat) + seq![' '] + join(vs.drop_first()),
    decreases vs.len(),
{
    if vs.len() == 2 {
        assert(vs.drop_last().len() == 1);
        assert(vs.drop_first().len() == 1);
        assert(vs.drop_last()[0] == vs[0]);
        assert(vs.drop_first()[0] == vs.last());
        assert(join(vs.drop_last()) == hex_digits(vs[0] as nat));
        assert(join(vs.drop_first()) == hex_digits(vs.last() as nat));
        assert(join(vs) == join(vs.drop_last()) + seq![' '] + hex_digits(vs.last() as nat));
        assert(join(vs) =~= hex_digits(vs[0] as nat) + seq![' '] + join(vs.drop_first()));
    } else {
        lemma_join_front(vs.drop_last());
        assert(vs.drop_last().drop_first() =~= vs.drop_first().drop_last());
        assert(vs.drop_first().len() >= 2);
        assert(vs.drop_first().last() == vs.last());
        assert(vs.drop_last()[0] == vs[0]);
        assert(join(vs.drop_first()) == join(vs.drop_first().drop_last()) + seq![' '] + hex_digits(
            vs.last() as nat,
        ));
        assert(join(vs) =~= hex_digits(vs[0] as nat) + seq![' '] + join(vs.drop_first()));
    }
}

proof fn lemma_tok_end(s: Seq<char>, i: int, b: int)
    requires
        0 <= i <= b <= s.len(),
        forall|j: int| i <= j < b ==> !is_ws(#[trigger] s[j]),
        b == s.len() || is_ws(s[b]),
    ensures
        tok_end(s, i) == b,
    decreases b - i,
{
    if i < b {
        lemma_tok_end(s, i + 1, b);
    }
}

proof fn lemma_token_at(s: Seq<char>, pos: int, a: int, b: int, v: u64)
    requires
        0 <= pos,
        a == pos || (a == pos + 1 && s[pos] == ' '),
        a <= b <= s.len(),
        s.subrange(a, b) == hex_digits(v as nat),
        b == s.len() || s[b] == ' ',
    ensures
        next_tok(s, pos) == Some((a, b)),
        parse_hex(s.subrange(a, b)) == Some(v),
        parse_coord(s.subrange(a, b)) == Some(v),
{
    let d = hex_digits(v as nat);
    lemma_hex_digits(v as nat);
    assert(forall|j: int| a <= j < b ==> s[j] == d[j - a]);
    assert(d.len() > 0 && s[a] == d[0] && !is_ws(d[0]));
    assert(skip_ws(s, a) == a);
    assert(skip_ws(s, pos) == a);
    lemma_tok_end(s, a, b);
    assert(s.subrange(a, b)[0] == d[0]);
}

/// A text whose tail from `a` is `join(vs)` reads back as `vs`, from `a` or from
/// the space before it.
proof fn lemma_read_join(s: Seq<char>, pos: int, a: int, vs: Seq<u64>)
    requires
        0 <= pos,
        a == pos || (a == pos + 1 && s[pos] == ' '),
        a <= s.len(),
        s.subrange(a, s.len() as int) == join(vs),
        vs.len() >= 1,
    ensures
        read_fields(s, pos, vs.len()) == Some((vs, s.len() as int)),
        next_tok(s, pos) == Some((a, a + hex_digits(vs[0] as nat).len())),
        s.subrange(a, a + hex_digits(vs[0] as nat).len()) == hex_digits(vs[0] as nat),
    decreases vs.len(),
{
    let d = hex_digits(vs[0] as nat);
    let b = a + d.len();
    if vs.len() == 1 {
        assert(s.subrange(a, b) =~= d);
        lemma_token_at(s, pos, a, b, vs[0]);
        assert(read_fields(s, b, 0) == Some((Seq::<u64>::empty(), b)));
        assert(seq![vs[0]] + Seq::<u64>::empty() =~= vs);
    } else {
        lemma_join_front(vs);
        let t = join(vs.drop_first());
        let tail = s.subrange(a, s.len() as int);
        assert(tail == d + seq![' '] + t);
        assert(tail.len() == d.len() + 1 + t.len());
        assert forall|i: int| 0 <= i < d.len() implies s[a + i] == d[i] by {
            assert(tail[i] == s[a + i]);
        }
        assert(s.subrange(a, b) =~= d);
        assert(tail[d.len() as int] == ' ');
        assert(s[b] == tail[d.len() as int]);
        lemma_token_at(s, pos, a, b, vs[0]);
        assert forall|i: int| 0 <= i < t.len() implies s[b + 1 + i] == t[i] by {
            assert(tail[d.len() + 1 + i] == s[b + 1 + i]);
        }
        assert(s.subrange(b + 1, s.len() as int) =~= t);
        lemma_read_join(s, b, b + 1, vs.drop_first());
        assert(seq![vs[0]] + vs.drop_first() =~= vs);
    }
}

/// Writing values with `join` and reading them back gives the values.
pub proof fn lemma_join_round_trip(vs: Seq<u64>)
    requires
        vs.len() >= 1,
    ensures
        read_fields(join(vs), 0, vs.len()) == Some((vs, join(vs).len() as int)),
        next_tok(join(vs), 0) == Some((0int, hex_digits(vs[0] as nat).len() as int)),
        join(vs).subrange(0, hex_digits(vs[0] as nat).len() as int) == hex_digits(vs[0] as nat),
{
    let s = join(vs);
    assert(s.subrange(0, s.len() as int) =~= s);
    lemma_read_join(s, 0, 0, vs);
}

/// A cursor over the whitespace-separated tokens of a text.
pub struct Tokens {
    pub chars: Vec<char>,
    pub pos: usize,
}

impl Tokens {
    pub open spec fn wf(&self) -> bool {
        self.pos <= self.chars@.len()
    }

    /// A cursor at the start of `s`.
    pub fn new(s: &str) -> (r: Tokens)
        ensures
            r.chars@ == s@,
            r.pos == 0,
            r.wf(),
    {
        let mut chars: Vec<char> = Vec::new();
        for c in it: s.chars()
            invariant
                it.seq() == s@,
                chars@ == it.seq().subrange(0, it.index() as int),
        {
            chars.push(c);
            assert(chars@ =~= it.seq().subrange(0, it.index() + 1));
        }
        assert(chars@ =~= s@);
        Tokens { chars, pos: 0 }
    }

    /// The bounds of the next token, after which the cursor stands; none, with
    /// the cursor at the end, when only whitespace is left.
    pub fn next_range(&mut self) -> (r: Option<(usize, usize)>)
        requires
            old(self).wf(),
        ensures
            final(self).chars@ == old(self).chars@,
            final(self).wf(),
            r is None <==> next_tok(old(self).chars@, old(self).pos as int) is None,
            r is None ==> final(self).pos == old(self).chars@.len(),
            r matches Some((a, b)) ==> next_tok(old(self).chars@, old(self).pos as int) == Some(
                (a as int, b as int),
            ) && final(self).pos == b && a <= b <= final(self).chars@.len(),
            old(self).pos <= final(self).pos,
    {
        let ghost s = self.chars@;
        let n = self.chars.len();
        let mut i: usize = self.pos;
        while i < n && is_ws_char(self.chars[i])
            invariant
                self.pos <= i <= n,
                n == s.len(),
                s == self.chars@,
                skip_ws(s, i as int) == skip_ws(s, self.pos as int),
            decreases n - i,
        {
            i = i + 1;
        }
        if i >= n {
            self.pos = n;
            return None;
        }
        let start = i;
        while i < n && !is_ws_char(self.chars[i])
            invariant
                start <= i <= n,
                n == s.len(),
                s == self.chars@,
                tok_end(s, i as int) == tok_end(s, start as int),
            decreases n - i,
        {
            i = i + 1;
        }
        self.pos = i;
        Some((start, i))
    }

    /// Reads `k` base-16 tokens; none when a token is missing or is no such
    /// integer. On success the cursor stands after the last of them.
    pub fn read_hex_fields(&mut self, k: usize) -> (r: Option<Vec<u64>>)
        requires
            old(self).wf(),
        ensures
            final(self).chars@ == old(self).chars@,
            final(self).wf(),
            r is None <==> read_fields(old(self).chars@, old(self).pos as int, k as nat) is None,
            r matches Some(v) ==> read_fields(old(self).chars@, old(self).pos as int, k as nat)
                == Some((v@, final(self).pos as int)) && v@.len() == k,
            old(self).pos <= final(self).pos,
    {
        let ghost s = self.chars@;
        let ghost pos0 = self.pos as int;
        let mut out: Vec<u64> = Vec::new();
        let mut j: usize = 0;
        while j < k
            invariant
                j <= k,
                self.wf(),
                self.chars@ == s,
                s == old(self).chars@,
                pos0 == old(self).pos as int,
                pos0 <= self.pos,
                out@.len() == j,
                read_fields(s, pos0, k as nat) == match read_fields(
                    s,
                    self.pos as int,
                    (k - j) as nat,
                ) {
                    None => None,
                    Some((vs, e)) => Some((out@ + vs, e)),
                },
            decreases k - j,
        {
            let ghost before = self.pos as int;
            let rg = self.next_range();
            match rg {
                None => {
                    return None;
                },
                Some((a, b)) => {
                    match parse_coord_range(&self.chars, a, b) {
                        None => {
                            return None;
                        },
                        Some(v) => {
                            proof {
                                let rest = read_fields(s, b as int, (k - j - 1) as nat);
                                if let Some((vs, e)) = rest {
                                    assert(out@ + (seq![v] + vs) =~= out@.push(v) + vs);
                                }
                            }
                            out.push(v);
                        },
                    }
                },
            }
            j = j + 1;
        }
        proof {
            assert(out@ + Seq::<u64>::empty() =~= out@);
        }
        Some(out)
    }
}

fn is_ws_char(c: char) -> (r: bool)
    ensures
        r == is_ws(c),
{
    ('\u{9}' <= c && c <= '\u{d}') || c == ' ' || c == '\u{85}' || c == '\u{a0}'
        || c == '\u{1680}' || ('\u{2000}' <= c && c <= '\u{200a}') || c == '\u{2028}'
        || c == '\u{2029}' || c == '\u{202f}' || c == '\u{205f}' || c == '\u{3000}'
}

} // verus!
