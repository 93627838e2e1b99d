use vstd::prelude::*;

verus! {

/// The digit of value `v` (below 64) in the standard base64 alphabet:
/// A-Z, a-z, 0-9, '+', '/'.
pub open spec fn b64_char(v: int) -> char {
    if v < 26 {
        (65 + v) as char
    } else if v < 52 {
        (97 + v - 26) as char
    } else if v < 62 {
        (48 + v - 52) as char
    } else if v == 62 {
        '+'
    } else {
        '/'
    }
}

/// The four characters of one group of one to three bytes; missing bytes
/// count as zero and their digits become '='.
pub open spec fn b64_group(c: Seq<u8>) -> Seq<char> {
    let b0 = c[0] as int;
    let b1 = if c.len() > 1 { c[1] as int } else { 0 };
    let b2 = if c.len() > 2 { c[2] as int } else { 0 };
    seq![
        b64_char(b0 / 4),
        b64_char((b0 % 4) * 16 + b1 / 16),
        if c.len() > 1 { b64_char((b1 % 16) * 4 + b2 / 64) } else { '=' },
        if c.len() > 2 { b64_char(b2 % 64) } else { '=' },
    ]
}

/// Standard base64 with padding.
pub open spec fn base64(data: Seq<u8>) -> Seq<char>
    decreases data.len(),
{
    if data.len() == 0 {
        seq![]
    } else if data.len() <= 3 {
        b64_group(data)
    } else {
        b64_group(data.take(3)) + base64(data.skip(3))
    }
}

/// Base64 text has four characters for each started group of three bytes.
pub proof fn law_base64_length(data: Seq<u8>)
    ensures
        base64(data).len() == 4 * ((data.len() + 2) / 3),
    decreases data.len(),
{
    if data.len() > 3 {
        law_base64_length(data.skip(3));
    }
}

/// The value of a base64 digit (the inverse of `b64_char`).
pub open spec fn b64_value(c: char) -> int {
    if 'A' <= c <= 'Z' {
        c as int - 65
    } else if 'a' <= c <= 'z' {
        c as int - 97 + 26
    } else if '0' <= c <= '9' {
        c as int - 48 + 52
    } else if c == '+' {
        62
    } else {
        63
    }
}

/// The bytes of one group of four base64 characters; a '=' in the third or
/// fourth place marks a group of one or two bytes.
pub open spec fn unbase64_group(g: Seq<char>) -> Seq<u8> {
    let v0 = b64_value(g[0]);
    let v1 = b64_value(g[1]);
    let v2 = b64_value(g[2]);
    let v3 = b64_value(g[3]);
    let b0 = (v0 * 4 + v1 / 16) as u8;
    let b1 = ((v1 % 16) * 16 + v2 / 4) as u8;
    let b2 = ((v2 % 4) * 64 + v3) as u8;
    if g[2] == '=' {
        seq![b0]
    } else if g[3] == '=' {
        seq![b0, b1]
    } else {
        seq![b0, b1, b2]
    }
}

/// Decoding of padded base64 text, group by group.
pub open spec fn unbase64(text: Seq<char>) -> Seq<u8>
    decreases text.len(),
{
    if text.len() < 4 {
        seq![]
    } else {
        unbase64_group(text.take(4)) + unbase64(text.skip(4))
    }
}

proof fn lemma_digit_value(v: int)
    requires
        0 <= v < 64,
    ensures
        b64_value(b64_char(v)) == v,
        b64_char(v) != '=',
{
}

proof fn lemma_group_arith(b0: int, b1: int, b2: int)
    requires
        0 <= b0 < 256,
        0 <= b1 < 256,
        0 <= b2 < 256,
    ensures
        (b0 / 4) * 4 + ((b0 % 4) * 16 + b1 / 16) / 16 == b0,
        (((b0 % 4) * 16 + b1 / 16) % 16) * 16 + ((b1 % 16) * 4 + b2 / 64) / 4 == b1,
        (((b1 % 16) * 4 + b2 / 64) % 4) * 64 + b2 % 64 == b2,
        0 <= (b0 % 4) * 16 + b1 / 16 < 64,
        0 <= (b1 % 16) * 4 + b2 / 64 < 64,
{
    assert(((b0 % 4) * 16 + b1 / 16) / 16 == b0 % 4) by (nonlinear_arith)
        requires
            0 <= b1 < 256,
            0 <= b0 % 4 < 4,
    ;
    assert(((b0 % 4) * 16 + b1 / 16) % 16 == b1 / 16) by (nonlinear_arith)
        requires
            0 <= b1 < 256,
            0 <= b0 % 4 < 4,
    ;
    assert(((b1 % 16) * 4 + b2 / 64) / 4 == b1 % 16) by (nonlinear_arith)
        requires
            0 <= b2 < 256,
            0 <= b1 % 16 < 16,
    ;
    assert(((b1 % 16) * 4 + b2 / 64) % 4 == b2 / 64) by (nonlinear_arith)
        requires
            0 <= b2 < 256,
            0 <= b1 % 16 < 16,
    ;
}

proof fn lemma_group_round_trip(c: Seq<u8>)
    requires
        1 <= c.len() <= 3,
    ensures
        unbase64_group(b64_group(c)) == c,
{
    let b0 = c[0] as int;
    let b1 = if c.len() > 1 { c[1] as int } else { 0 };
    let b2 = if c.len() > 2 { c[2] as int } else { 0 };
    lemma_group_arith(b0, b1, b2);
    lemma_digit_value(b0 / 4);
    lemma_digit_value((b0 % 4) * 16 + b1 / 16);
    lemma_digit_value((b1 % 16) * 4 + b2 / 64);
    lemma_digit_value(b2 % 64);
    assert(unbase64_group(b64_group(c)) =~= c);
}

/// Base64 loses nothing: decoding the text of any bytes gives them back.
pub proof fn law_base64_round_trip(data: Seq<u8>)
    ensures
        unbase64(base64(data)) == data,
    decreases data.len(),
{
    if data.len() == 0 {
    } else if data.len() <= 3 {
        let t = base64(data);
        assert(t.take(4) =~= t);
        assert(t.skip(4) =~= Seq::<char>::empty());
        lemma_group_round_trip(data);
        assert(t.len() == 4);
        assert(unbase64(t.skip(4)) =~= Seq::<u8>::empty());
        assert(unbase64(t) =~= unbase64_group(t) + Seq::<u8>::empty());
    } else {
        let g = b64_group(data.take(3));
        let rest = base64(data.skip(3));
        let t = base64(data);
        assert(t == g + rest);
        assert(t.take(4) =~= g);
        assert(t.skip(4) =~= rest);
        lemma_group_round_trip(data.take(3));
        law_base64_round_trip(data.skip(3));
        assert(data.take(3) + data.skip(3) =~= data);
    }
}

/// Calls std's `String::push`: the character is appended.
#[verifier::external_body]
fn push_char(out: &mut String, c: char)
    ensures
        final(out)@ == old(out)@.push(c),
{
    out.push(c);
}

fn b64_digit(v: u8) -> (c: char)
    requires
        v < 64,
    ensures
        c == b64_char(v as int),
{
    if v < 26 {
        (65u8 + v) as char
    } else if v < 52 {
        (97u8 + (v - 26)) as char
    } else if v < 62 {
        (48u8 + (v - 52)) as char
    } else if v == 62 {
        '+'
    } else {
        '/'
    }
}

proof fn lemma_group_bits(b0: u8, b1: u8, b2: u8)
    by (bit_vector)
    ensures
        b0 >> 2u8 == b0 / 4,
        ((b0 & 3u8) << 4u8) | (b1 >> 4u8) == (b0 % 4) * 16 + b1 / 16,
        ((b1 & 15u8) << 2u8) | (b2 >> 6u8) == (b1 % 16) * 4 + b2 / 64,
        b2 & 63u8 == b2 % 64,
        b0 >> 2u8 < 64,
        ((b0 & 3u8) << 4u8) | (b1 >> 4u8) < 64,
        ((b1 & 15u8) << 2u8) | (b2 >> 6u8) < 64,
{
}

/// Encodes bytes as standard base64, with '=' padding.
pub fn to_base64(data: &[u8]) -> (r: String)
    ensures
        r@ == base64(data@),
{
    let mut out = String::new();
    let n = data.len();
    let mut i: usize = 0;
    assert(data@.skip(0) =~= data@);
    assert(out@ + base64(data@) =~= base64(data@));
    while i < n
        invariant
            n == data@.len(),
            i <= n,
            out@ + base64(data@.skip(i as int)) == base64(data@),
        decreases n - i,
    {
        let left = n - i;
        let b0 = data[i];
        let b1 = if left > 1 { data[i + 1] } else { 0u8 };
        let b2 = if left > 2 { data[i + 2] } else { 0u8 };
        proof {
            lemma_group_bits(b0, b1, b2);
        }
        let ghost rest = data@.skip(i as int);
        let ghost chunk = if rest.len() <= 3 { rest } else { rest.take(3) };
        assert(chunk[0] == b0);
        assert(chunk.len() > 1 ==> chunk[1] == b1);
        assert(chunk.len() > 2 ==> chunk[2] == b2);
        let ghost before = out@;
        push_char(&mut out, b64_digit(b0 >> 2));
        push_char(&mut out, b64_digit(((b0 & 3) << 4) | (b1 >> 4)));
        if left > 1 {
            push_char(&mut out, b64_digit(((b1 & 15) << 2) | (b2 >> 6)));
        } else {
            push_char(&mut out, '=');
        }
        if left > 2 {
            push_char(&mut out, b64_digit(b2 & 63));
        } else {
            push_char(&mut out, '=');
        }
        assert(out@ =~= before + b64_group(chunk));
        if left <= 3 {
            assert(base64(rest) == b64_group(chunk));
            i = n;
            assert(data@.skip(i as int) =~= Seq::<u8>::empty());
        } else {
            assert(rest.skip(3) =~= data@.skip(i + 3));
            assert(base64(rest) == b64_group(chunk) + base64(rest.skip(3)));
            i = i + 3;
            assert(out@ + base64(data@.skip(i as int)) =~= before + (b64_group(chunk) + base64(rest.skip(3))));
        }
    }
    assert(data@.skip(i as int) =~= Seq::<u8>::empty());
    assert(out@ + base64(data@.skip(i as int)) =~= out@);
    out
}

} // verus!
