//! Text helpers: UTF-8 decoding, character sequences and line splitting.
use vstd::prelude::*;
use vstd::std_specs::iter::IteratorSpec;
use vstd::utf8::decode_utf8;
use vstd::utf8::encode_scalar;
use vstd::utf8::encode_utf8;
use vstd::utf8::valid_utf8;

verus! {

broadcast use vstd::string::group_string_axioms;

/// Decodes a byte buffer as UTF-8 with `String::from_utf8`: `Some` exactly when the
/// bytes are valid UTF-8, holding the decoded characters.
#[verifier::external_body]
pub(crate) fn decode_utf8_bytes(bytes: &[u8]) -> (res: Option<String>)
    ensures
        res is Some <==> valid_utf8(bytes@),
        res matches Some(s) ==> s@ == decode_utf8(bytes@),
{
    String::from_utf8(bytes.to_vec()).ok()
}

/// The string made of `chars`, in order (`String`'s `FromIterator<&char>`).
#[verifier::external_body]
pub(crate) fn string_from_chars(chars: &[char]) -> (s: String)
    ensures
        s@ == chars@,
{
    chars.iter().collect()
}

/// The characters of a string, in order.
pub fn chars_of(s: &str) -> (v: Vec<char>)
    ensures
        v@ == s@,
{
    let mut it = s.chars();
    let mut v: Vec<char> = Vec::new();
    loop
        invariant
            v@ + IteratorSpec::remaining(&it) == s@,
        ensures
            v@ == s@,
        decreases s@.len() - v@.len(),
    {
        match it.next() {
            Some(c) => {
                v.push(c);
            },
            None => {
                assert(v@ + IteratorSpec::remaining(&it) == v@);
                break;
            },
        }
    }
    v
}


/// The views of a sequence of character vectors.
pub open spec fn views(v: Seq<Vec<char>>) -> Seq<Seq<char>> {
    v.map_values(|p: Vec<char>| p@)
}

/// The pieces of `s` between occurrences of `sep`, where `cur` is the piece
/// gathered so far; a string with `n` separators has `n + 1` pieces.
pub open spec fn split_from(s: Seq<char>, sep: char, cur: Seq<char>) -> Seq<Seq<char>>
    decreases s.len(),
{
    if s.len() == 0 {
        seq![cur]
    } else if s[0] == sep {
        seq![cur] + split_from(s.drop_first(), sep, seq![])
    } else {
        split_from(s.drop_first(), sep, cur.push(s[0]))
    }
}

/// The pieces of `s` separated by `sep`, as `str::split` with a one-character pattern gives them.
pub open spec fn split_on(s: Seq<char>, sep: char) -> Seq<Seq<char>> {
    split_from(s, sep, seq![])
}

/// `line` without one trailing carriage return.
pub open spec fn strip_cr(line: Seq<char>) -> Seq<char> {
    if line.len() > 0 && line.last() == '\r' {
        line.drop_last()
    } else {
        line
    }
}

/// The lines of `s` as `str::lines` gives them: the pieces between newlines, where a
/// piece ended by a newline loses one trailing carriage return, and a final empty
/// piece (after a trailing newline, or of an empty string) is no line.
pub open spec fn lines_of(s: Seq<char>) -> Seq<Seq<char>> {
    let pieces = split_on(s, '\n');
    let ended = pieces.drop_last().map_values(|p: Seq<char>| strip_cr(p));
    if pieces.last().len() == 0 {
        ended
    } else {
        ended.push(pieces.last())
    }
}

/// The concatenation of all pieces, in order.
pub open spec fn concat(pieces: Seq<Seq<char>>) -> Seq<char>
    decreases pieces.len(),
{
    if pieces.len() == 0 {
        seq![]
    } else {
        concat(pieces.drop_last()) + pieces.last()
    }
}

proof fn lemma_split_step(s: Seq<char>, i: int, sep: char, cur: Seq<char>)
    requires
        0 <= i < s.len(),
    ensures
        split_from(s.skip(i), sep, cur) == (if s[i] == sep {
            seq![cur] + split_from(s.skip(i + 1), sep, seq![])
        } else {
            split_from(s.skip(i + 1), sep, cur.push(s[i]))
        }),
{
    assert(s.skip(i).drop_first() =~= s.skip(i + 1));
}

/// Splits `s` at every occurrence of `sep`.
pub fn split_chars(s: &Vec<char>, sep: char) -> (pieces: Vec<Vec<char>>)
    ensures
        views(pieces@) == split_on(s@, sep),
        pieces@.len() >= 1,
{
    let mut pieces: Vec<Vec<char>> = Vec::new();
    let mut cur: Vec<char> = Vec::new();
    let mut i: usize = 0;
    assert(s@.skip(0) =~= s@);
    while i < s.len()
        invariant
            i <= s@.len(),
            views(pieces@) + split_from(s@.skip(i as int), sep, cur@) == split_on(s@, sep),
        decreases s@.len() - i,
    {
        proof {
            lemma_split_step(s@, i as int, sep, cur@);
        }
        let c = s[i];
        if c == sep {
            let ghost before = views(pieces@);
            let ghost rest = split_from(s@.skip(i + 1), sep, seq![]);
            pieces.push(cur);
            cur = Vec::new();
            assert(views(pieces@) =~= before.push(pieces@.last()@));
            assert(before + (seq![pieces@.last()@] + rest) =~= views(pieces@) + rest);
        } else {
            cur.push(c);
        }
        i = i + 1;
    }
    let ghost before = views(pieces@);
    assert(s@.skip(i as int) =~= Seq::<char>::empty());
    pieces.push(cur);
    assert(views(pieces@) =~= before + seq![pieces@.last()@]);
    pieces
}

/// `line` without one trailing carriage return.
pub fn strip_cr_chars(line: Vec<char>) -> (res: Vec<char>)
    ensures
        res@ == strip_cr(line@),
{
    let mut line = line;
    if line.len() > 0 && line[line.len() - 1] == '\r' {
        line.pop();
    }
    line
}

/// The lines of `s`, as `str::lines` splits them.
pub fn lines_chars(s: &Vec<char>) -> (lines: Vec<Vec<char>>)
    ensures
        views(lines@) == lines_of(s@),
{
    let mut pieces = split_chars(s, '\n');
    let ghost all = split_on(s@, '\n');
    let last = pieces.pop().unwrap();
    let ghost front = views(pieces@);
    assert(front =~= all.drop_last());
    let mut lines: Vec<Vec<char>> = Vec::new();
    let mut i: usize = 0;
    while i < pieces.len()
        invariant
            i <= pieces@.len(),
            views(pieces@) == all.drop_last(),
            views(lines@) == all.drop_last().take(i as int).map_values(|p: Seq<char>| strip_cr(p)),
        decreases pieces@.len() - i,
    {
        let piece = pieces[i].clone();
        assert(piece@ == views(pieces@)[i as int]);
        let ghost old_lines = views(lines@);
        lines.push(strip_cr_chars(piece));
        assert(views(lines@) =~= old_lines.push(strip_cr(all.drop_last()[i as int])));
        assert(all.drop_last().take(i + 1) =~= all.drop_last().take(i as int).push(
            all.drop_last()[i as int],
        ));
        assert(views(lines@) =~= all.drop_last().take(i + 1).map_values(
            |p: Seq<char>| strip_cr(p),
        ));
        i = i + 1;
    }
    assert(all.drop_last().take(i as int) =~= all.drop_last());
    if last.len() > 0 {
        lines.push(last);
        assert(views(lines@) =~= lines_of(s@));
    }
    lines
}

/// The concatenation of `pieces[from..]`.
pub fn concat_from(pieces: &Vec<Vec<char>>, from: usize) -> (res: Vec<char>)
    requires
        from <= pieces@.len(),
    ensures
        res@ == concat(views(pieces@).skip(from as int)),
{
    let mut res: Vec<char> = Vec::new();
    let mut i: usize = from;
    assert(views(pieces@).subrange(from as int, from as int) =~= Seq::<Seq<char>>::empty());
    while i < pieces.len()
        invariant
            from <= i <= pieces@.len(),
            res@ == concat(views(pieces@).subrange(from as int, i as int)),
        decreases pieces@.len() - i,
    {
        let ghost before = res@;
        let piece = &pieces[i];
        let mut j: usize = 0;
        while j < piece.len()
            invariant
                j <= piece@.len(),
                res@ == before + piece@.take(j as int),
            decreases piece@.len() - j,
        {
            res.push(piece[j]);
            assert(piece@.take(j + 1) =~= piece@.take(j as int).push(piece@[j as int]));
            assert(res@ =~= before + piece@.take(j + 1));
            j = j + 1;
        }
        assert(piece@.take(j as int) =~= piece@);
        assert(views(pieces@).subrange(from as int, i + 1).drop_last() =~= views(pieces@).subrange(
            from as int,
            i as int,
        ));
        i = i + 1;
    }
    assert(views(pieces@).subrange(from as int, i as int) =~= views(pieces@).skip(from as int));
    res
}


/// Encoding a concatenation encodes each part in turn.
pub proof fn lemma_encode_utf8_concat(a: Seq<char>, b: Seq<char>)
    ensures
        encode_utf8(a + b) == encode_utf8(a) + encode_utf8(b),
    decreases a.len(),
{
    if a.len() == 0 {
        assert(a + b =~= b);
        assert(encode_utf8(a) =~= Seq::<u8>::empty());
        assert(encode_utf8(a) + encode_utf8(b) =~= encode_utf8(b));
    } else {
        assert((a + b).drop_first() =~= a.drop_first() + b);
        assert((a + b)[0] == a[0]);
        lemma_encode_utf8_concat(a.drop_first(), b);
        assert(encode_utf8(a + b) =~= encode_scalar(a[0] as u32) + (encode_utf8(a.drop_first())
            + encode_utf8(b)));
    }
}

/// The number of bytes of `c` in UTF-8.
pub fn utf8_width(c: char) -> (w: usize)
    ensures
        w == encode_utf8(seq![c]).len(),
        1 <= w <= 4,
{
    proof {
        vstd::utf8::char_is_scalar(c);
        assert(seq![c].drop_first() =~= Seq::<char>::empty());
        assert(encode_utf8(seq![c]) =~= encode_scalar(c as u32) + encode_utf8(
            Seq::<char>::empty(),
        ));
        assert(encode_utf8(seq![c]) =~= encode_scalar(c as u32));
    }
    let v = c as u32;
    if v <= 0x7F {
        1
    } else if v <= 0x7FF {
        2
    } else if v <= 0xFFFF {
        3
    } else {
        4
    }
}

/// Whether `line` takes at most `max` bytes in UTF-8.
pub fn utf8_len_at_most(line: &Vec<char>, max: usize) -> (res: bool)
    requires
        max <= usize::MAX - 4,
    ensures
        res == (encode_utf8(line@).len() <= max),
{
    let mut total: usize = 0;
    let mut i: usize = 0;
    assert(line@.take(0) =~= Seq::<char>::empty());
    while i < line.len()
        invariant
            i <= line@.len(),
            max <= usize::MAX - 4,
            total == encode_utf8(line@.take(i as int)).len(),
            total <= max,
        decreases line@.len() - i,
    {
        let w = utf8_width(line[i]);
        proof {
            assert(line@.take(i + 1) =~= line@.take(i as int) + seq![line@[i as int]]);
            lemma_encode_utf8_concat(line@.take(i as int), seq![line@[i as int]]);
        }
        total = total + w;
        i = i + 1;
        if total > max {
            proof {
                assert(line@ =~= line@.take(i as int) + line@.skip(i as int));
                lemma_encode_utf8_concat(line@.take(i as int), line@.skip(i as int));
            }
            return false;
        }
    }
    assert(line@.take(i as int) =~= line@);
    true
}

/// The characters with Unicode's `White_Space` property, which `char::is_whitespace`
/// tests for.
pub open spec fn is_white_space(c: char) -> bool {
    let v = c as u32;
    ||| 0x09 <= v <= 0x0D
    ||| v == 0x20
    ||| v == 0x85
    ||| v == 0xA0
    ||| v == 0x1680
    ||| 0x2000 <= v <= 0x200A
    ||| v == 0x2028
    ||| v == 0x2029
    ||| v == 0x202F
    ||| v == 0x205F
    ||| v == 0x3000
}

/// Whether `c` is white space.
pub fn white_space(c: char) -> (res: bool)
    ensures
        res == is_white_space(c),
{
    let v = c as u32;
    (0x09 <= v && v <= 0x0D) || v == 0x20 || v == 0x85 || v == 0xA0 || v == 0x1680 || (0x2000
        <= v && v <= 0x200A) || v == 0x2028 || v == 0x2029 || v == 0x202F || v == 0x205F || v
        == 0x3000
}

/// `s` without its leading white space.
pub open spec fn trim_start(s: Seq<char>) -> Seq<char>
    decreases s.len(),
{
    if s.len() > 0 && is_white_space(s[0]) {
        trim_start(s.drop_first())
    } else {
        s
    }
}

/// `s` without its trailing white space.
pub open spec fn trim_end(s: Seq<char>) -> Seq<char>
    decreases s.len(),
{
    if s.len() > 0 && is_white_space(s.last()) {
        trim_end(s.drop_last())
    } else {
        s
    }
}

/// `s` without leading and trailing white space, as `str::trim` gives it.
pub open spec fn trim(s: Seq<char>) -> Seq<char> {
    trim_end(trim_start(s))
}

/// `s` without leading and trailing white space.
pub fn trim_chars(s: &Vec<char>) -> (res: Vec<char>)
    ensures
        res@ == trim(s@),
{
    let mut a: usize = 0;
    assert(s@.skip(0) =~= s@);
    while a < s.len() && white_space(s[a])
        invariant
            a <= s@.len(),
            trim_start(s@) == trim_start(s@.skip(a as int)),
        decreases s@.len() - a,
    {
        assert(s@.skip(a as int).drop_first() =~= s@.skip(a + 1));
        a = a + 1;
    }
    let ghost front = s@.skip(a as int);
    assert(trim_start(front) == front);
    let mut b: usize = s.len();
    assert(front.take(front.len() as int) =~= front);
    while b > a && white_space(s[b - 1])
        invariant
            a <= b <= s@.len(),
            front == s@.skip(a as int),
            trim_end(front) == trim_end(front.take(b - a)),
        decreases b,
    {
        assert(front.take(b - a).drop_last() =~= front.take(b - 1 - a));
        b = b - 1;
    }
    let mut res: Vec<char> = Vec::new();
    let mut i: usize = a;
    while i < b
        invariant
            a <= i <= b <= s@.len(),
            res@ == s@.subrange(a as int, i as int),
        decreases b - i,
    {
        res.push(s[i]);
        assert(s@.subrange(a as int, i + 1) =~= s@.subrange(a as int, i as int).push(s@[i as int]));
        i = i + 1;
    }
    assert(front.take(b - a) =~= s@.subrange(a as int, b as int));
    res
}

/// The decimal digit character for `d < 10`.
pub open spec fn digit_char(d: nat) -> char {
    (48 + d) as char
}

/// The decimal numeral of `n`, without sign or leading zeros.
pub open spec fn decimal(n: nat) -> Seq<char>
    decreases n,
{
    if n < 10 {
        seq![digit_char(n)]
    } else {
        decimal(n / 10).push(digit_char(n % 10))
    }
}

/// The decimal digit character of `d < 10`.
fn digit(d: usize) -> (c: char)
    requires
        d < 10,
    ensures
        c == digit_char(d as nat),
{
    let b: u8 = 48 + d as u8;
    b as char
}

/// The decimal numeral of `n`.
pub fn usize_decimal(n: usize) -> (s: String)
    ensures
        s@ == decimal(n as nat),
{
    let mut m = n;
    let mut rev: Vec<char> = Vec::new();
    while m >= 10
        invariant
            decimal(n as nat) == decimal(m as nat) + rev@.reverse(),
        decreases m,
    {
        let d = digit(m % 10);
        let ghost before = rev@;
        rev.push(d);
        assert(rev@.reverse() =~= seq![d] + before.reverse());
        assert(decimal(m as nat) == decimal((m / 10) as nat).push(d));
        assert(decimal((m / 10) as nat).push(d) + before.reverse() =~= decimal((m / 10) as nat)
            + rev@.reverse());
        m = m / 10;
    }
    let mut out: Vec<char> = Vec::new();
    out.push(digit(m));
    let mut i: usize = rev.len();
    while i > 0
        invariant
            i <= rev@.len(),
            out@ == seq![digit_char(m as nat)] + rev@.reverse().take(rev@.len() - i),
        decreases i,
    {
        i = i - 1;
        out.push(rev[i]);
        assert(rev@.reverse().take(rev@.len() - i) =~= rev@.reverse().take(rev@.len() - i - 1).push(
            rev@[i as int],
        ));
    }
    assert(rev@.reverse().take(rev@.len() as int) =~= rev@.reverse());
    assert(decimal(m as nat) == seq![digit_char(m as nat)]);
    string_from_chars(out.as_slice())
}

} // verus!
