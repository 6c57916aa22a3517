//! Copying text to the terminal's clipboard with the OSC 52 sequence.
use vstd::prelude::*;

verus! {

/// The base64 alphabet character of a 6-bit value.
pub open spec fn b64_char(v: int) -> char {
    if v < 26 {
        (65 + v) as char
    } else if v < 52 {
        (97 + (v - 26)) as char
    } else if v < 62 {
        (48 + (v - 52)) as char
    } else if v == 62 {
        '+'
    } else {
        '/'
    }
}

/// The four characters encoding the `n` (1 to 3) bytes `b0`, `b1`, `b2`;
/// missing bytes count as zero and their places are padded with `=`.
pub open spec fn b64_group(b0: u8, b1: u8, b2: u8, n: int) -> Seq<char> {
    seq![
        b64_char((b0 / 4) as int),
        b64_char((b0 % 4) * 16 + b1 / 16),
        if n >= 2 { b64_char((b1 % 16) * 4 + b2 / 64) } else { '=' },
        if n >= 3 { b64_char((b2 % 64) as int) } else { '=' },
    ]
}

/// Standard base64 (RFC 4648 alphabet, `=` padding) of `d`.
pub open spec fn base64(d: Seq<u8>) -> Seq<char>
    decreases d.len(),
{
    if d.len() == 0 {
        seq![]
    } else if d.len() == 1 {
        b64_group(d[0], 0, 0, 1)
    } else if d.len() == 2 {
        b64_group(d[0], d[1], 0, 2)
    } else {
        b64_group(d[0], d[1], d[2], 3) + base64(d.skip(3))
    }
}

fn b64_char_exec(v: u8) -> (c: char)
    requires
        v < 64,
    ensures
        c == b64_char(v as int),
{
    if v < 26 {
        (65 + v) as char
    } else if v < 52 {
        (97 + (v - 26)) as char
    } else if v < 62 {
        (48 + (v - 52)) as char
    } else if v == 62 {
        '+'
    } else {
        '/'
    }
}

proof fn lemma_base64_skip(d: Seq<u8>, i: int)
    requires
        0 <= i,
        i + 3 <= d.len(),
    ensures
        base64(d.skip(i)) == b64_group(d[i], d[i + 1], d[i + 2], 3) + base64(d.skip(i + 3)),
{
    let s = d.skip(i);
    assert(s.skip(3) =~= d.skip(i + 3));
    assert(s[0] == d[i] && s[1] == d[i + 1] && s[2] == d[i + 2]);
}

/// Base64 text of `data`.
pub fn base64_encode(data: &[u8]) -> (r: String)
    ensures
        r@ == base64(data@),
{
    let n = data.len();
    let mut out: Vec<char> = Vec::new();
    let mut i: usize = 0;
    assert(data@.skip(0) =~= data@);
    while i < n
        invariant
            n == data@.len(),
            i <= n,
            out@ + base64(data@.skip(i as int)) == base64(data@),
        decreases n - i,
    {
        let rest = n - i;
        let b0 = data[i];
        let b1: u8 = if rest >= 2 { data[i + 1] } else { 0 };
        let b2: u8 = if rest >= 3 { data[i + 2] } else { 0 };
        let ghost before = out@;
        out.push(b64_char_exec(b0 / 4));
        out.push(b64_char_exec((b0 % 4) * 16 + b1 / 16));
        if rest >= 2 {
            out.push(b64_char_exec((b1 % 16) * 4 + b2 / 64));
        } else {
            out.push('=');
        }
        if rest >= 3 {
            out.push(b64_char_exec(b2 % 64));
        } else {
            out.push('=');
        }
        let taken: usize = if rest >= 3 { 3 } else { rest };
        proof {
            let g = b64_group(b0, b1, b2, taken as int);
            assert(out@ =~= before + g);
            let s = data@.skip(i as int);
            if rest >= 3 {
                lemma_base64_skip(data@, i as int);
            } else {
                assert(data@.skip(i + taken) =~= Seq::<u8>::empty());
                assert(s.len() == rest);
                assert(s[0] == b0);
                if rest == 2 {
                    assert(s[1] == b1);
                }
                assert(base64(s) == g);
                assert(base64(data@.skip(i + taken)) =~= Seq::<char>::empty());
            }
            assert(out@ + base64(data@.skip(i + taken)) =~= before + (g + base64(data@.skip(i + taken))));
        }
        i = i + taken;
    }
    assert(data@.skip(n as int) =~= Seq::<u8>::empty());
    assert(out@ + base64(data@.skip(n as int)) =~= out@);
    crate::text::string_of(&out)
}

/// The OSC 52 sequence for the text `t`.
pub open spec fn osc52(t: Seq<char>) -> Seq<char> {
    seq!['\u{1b}', ']', '5', '2', ';', 'c', ';'] + base64(vstd::utf8::encode_utf8(t)) + seq!['\u{7}']
}

/// The OSC 52 sequence that asks the terminal to put `text` on the
/// clipboard: `ESC ] 52 ; c ; <base64 of the UTF-8 bytes> BEL`.
pub fn osc52_sequence(text: &str) -> (r: String)
    ensures
        r@ == osc52(text@),
{
    let b = base64_encode(text.as_bytes());
    let mut v: Vec<char> = Vec::new();
    v.push('\u{1b}');
    v.push(']');
    v.push('5');
    v.push('2');
    v.push(';');
    v.push('c');
    v.push(';');
    let body = crate::text::chars_of(b.as_str());
    let mut w = crate::text::concat_vec(&v, &body);
    w.push('\u{7}');
    proof {
        assert(v@ =~= seq!['\u{1b}', ']', '5', '2', ';', 'c', ';']);
    }
    crate::text::string_of(&w)
}

/// Base64 text is four characters for every started group of three bytes.
pub proof fn law_base64_length(d: Seq<u8>)
    ensures
        base64(d).len() == 4 * ((d.len() + 2) / 3),
    decreases d.len(),
{
    if d.len() >= 3 {
        law_base64_length(d.skip(3));
        assert(d.skip(3).len() == d.len() - 3);
    }
}

} // verus!
