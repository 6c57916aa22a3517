//! Telnet stream handling: option negotiation, sub-negotiation (GMCP, NAWS),
//! line and prompt framing, auto-login and latency sampling.
//!
//! The socket itself is driven elsewhere; this module decides what the bytes
//! mean and what to answer.

use vstd::prelude::*;
use vstd::string::StringSliceAdditionalSpecFns;

verus! {

/// Telnet "interpret as command".
pub const IAC: u8 = 0xFF;
/// Telnet WILL.
pub const WILL: u8 = 0xFB;
/// Telnet WONT.
pub const WONT: u8 = 0xFC;
/// Telnet DO.
pub const DO: u8 = 0xFD;
/// Telnet DONT.
pub const DONT: u8 = 0xFE;
/// Start of sub-negotiation.
pub const SB: u8 = 0xFA;
/// End of sub-negotiation.
pub const SE: u8 = 0xF0;
/// Are You There.
pub const AYT: u8 = 0xF6;
/// Telnet option ECHO.
pub const OPT_ECHO: u8 = 0x01;
/// Telnet option NAWS (window size).
pub const OPT_NAWS: u8 = 0x1F;
/// Telnet option GMCP.
pub const OPT_GMCP: u8 = 0xC9;
/// The escape byte that starts ANSI sequences.
pub const ESC: u8 = 0x1B;

/// Milliseconds after which a user-command latency sample is dropped.
pub const USER_LATENCY_MAX_AGE_MS: u64 = 10_000;
/// Milliseconds after which a probe latency sample is dropped.
pub const PROBE_LATENCY_MAX_AGE_MS: u64 = 3_000;
/// Milliseconds between latency probes.
pub const LATENCY_PROBE_INTERVAL_MS: u64 = 30_000;

/// The refusal for an option the client does not support: DO gets WONT,
/// WILL gets DONT, anything else WONT.
pub fn refuse(verb: u8) -> (r: u8)
    ensures
        r == (if verb == DO {
            WONT
        } else if verb == WILL {
            DONT
        } else {
            WONT
        }),
{
    if verb == DO {
        WONT
    } else if verb == WILL {
        DONT
    } else {
        WONT
    }
}

/// A 3-byte negotiation message `IAC verb opt`.
pub fn iac_response(verb: u8, opt: u8) -> (r: [u8; 3])
    ensures
        r@ == seq![IAC, verb, opt],
{
    let r = [IAC, verb, opt];
    assert(r@ =~= seq![IAC, verb, opt]);
    r
}

/// `s` with every IAC byte doubled, as telnet data must carry it.
pub open spec fn iac_escape(s: Seq<u8>) -> Seq<u8>
    decreases s.len(),
{
    if s.len() == 0 {
        seq![]
    } else {
        let r = iac_escape(s.drop_last());
        if s.last() == IAC {
            r + seq![IAC, IAC]
        } else {
            r.push(s.last())
        }
    }
}

/// Big-endian bytes of a terminal size.
pub open spec fn size_bytes(cols: u16, rows: u16) -> Seq<u8> {
    seq![(cols / 256) as u8, (cols % 256) as u8, (rows / 256) as u8, (rows % 256) as u8]
}

/// The NAWS sub-negotiation for a terminal size:
/// `IAC SB NAWS <cols hi lo> <rows hi lo> IAC SE`, IAC bytes in the data doubled.
pub open spec fn spec_naws_packet(cols: u16, rows: u16) -> Seq<u8> {
    seq![IAC, SB, OPT_NAWS] + iac_escape(size_bytes(cols, rows)) + seq![IAC, SE]
}

/// Build the NAWS sub-negotiation packet for the given terminal size.
pub fn naws_packet(cols: u16, rows: u16) -> (r: Vec<u8>)
    ensures
        r@ == spec_naws_packet(cols, rows),
{
    let data: [u8; 4] = [(cols / 256) as u8, (cols % 256) as u8, (rows / 256) as u8, (rows % 256) as u8];
    assert(data@ =~= size_bytes(cols, rows));
    let mut buf: Vec<u8> = Vec::new();
    buf.push(IAC);
    buf.push(SB);
    buf.push(OPT_NAWS);
    let mut i: usize = 0;
    while i < 4
        invariant
            i <= 4,
            data@ == size_bytes(cols, rows),
            buf@ == seq![IAC, SB, OPT_NAWS] + iac_escape(data@.take(i as int)),
        decreases 4 - i,
    {
        proof {
            assert(data@.take(i + 1).drop_last() =~= data@.take(i as int));
        }
        let b = data[i];
        if b == IAC {
            buf.push(IAC);
        }
        buf.push(b);
        proof {
            if b == IAC {
                assert(buf@ =~= seq![IAC, SB, OPT_NAWS] + (iac_escape(data@.take(i as int)) + seq![IAC, IAC]));
            } else {
                assert(buf@ =~= seq![IAC, SB, OPT_NAWS] + iac_escape(data@.take(i as int)).push(b));
            }
        }
        i += 1;
    }
    assert(data@.take(4) =~= data@);
    buf.push(IAC);
    buf.push(SE);
    assert(buf@ =~= spec_naws_packet(cols, rows));
    buf
}

/// `s` (which starts with ESC) holds a complete escape sequence: a CSI
/// sequence (`ESC [`) with its final byte in `0x40..=0x7E`; an OSC, DCS, PM,
/// APC or SOS string (`ESC ] P ^ _ X`) with its BEL or `ESC \` terminator; a
/// charset designation (`ESC ( ) * +`) with its charset byte; or any other
/// two-byte sequence.
pub open spec fn spec_complete_escape(s: Seq<u8>) -> bool {
    if s.len() < 2 || s[0] != ESC {
        false
    } else if s[1] == 0x5b {
        exists|i: int| 2 <= i < s.len() && 0x40 <= #[trigger] s[i] <= 0x7e
    } else if s[1] == 0x5d || s[1] == 0x50 || s[1] == 0x5e || s[1] == 0x5f || s[1] == 0x58 {
        (exists|i: int| 2 <= i < s.len() && #[trigger] s[i] == 0x07)
            || (exists|i: int| 2 <= i && i + 1 < s.len() && #[trigger] s[i] == ESC && s[i + 1] == 0x5c)
    } else if s[1] == 0x28 || s[1] == 0x29 || s[1] == 0x2a || s[1] == 0x2b {
        s.len() >= 3
    } else {
        true
    }
}

/// Whether the escape sequence at the start of `seq` is fully terminated
/// within `seq`.
pub fn is_complete_escape(seq: &[u8]) -> (b: bool)
    ensures
        b == spec_complete_escape(seq@),
{
    if seq.len() < 2 || seq[0] != ESC {
        return false;
    }
    let kind = seq[1];
    if kind == 0x5b {
        let mut i: usize = 2;
        while i < seq.len()
            invariant
                2 <= i <= seq@.len(),
                seq@[0] == ESC,
                seq@[1] == 0x5b,
                forall|j: int| 2 <= j < i ==> !(0x40 <= #[trigger] seq@[j] <= 0x7e),
            decreases seq.len() - i,
        {
            if 0x40 <= seq[i] && seq[i] <= 0x7e {
                assert(2 <= i < seq@.len() && 0x40 <= seq@[i as int] <= 0x7e);
                return true;
            }
            i += 1;
        }
        false
    } else if kind == 0x5d || kind == 0x50 || kind == 0x5e || kind == 0x5f || kind == 0x58 {
        let mut i: usize = 2;
        while i < seq.len()
            invariant
                2 <= i <= seq@.len(),
                seq@[0] == ESC,
                seq@[1] == kind,
                kind != 0x5b,
                kind == 0x5d || kind == 0x50 || kind == 0x5e || kind == 0x5f || kind == 0x58,
                forall|j: int| 2 <= j < i ==> #[trigger] seq@[j] != 0x07,
                forall|j: int| 2 <= j < i && j + 1 < seq@.len() ==> !(#[trigger] seq@[j] == ESC && seq@[j + 1] == 0x5c),
            decreases seq.len() - i,
        {
            if seq[i] == 0x07 {
                assert(2 <= i < seq@.len() && seq@[i as int] == 0x07);
                return true;
            }
            if i + 1 < seq.len() && seq[i] == ESC && seq[i + 1] == 0x5c {
                assert(2 <= i && i + 1 < seq@.len() && seq@[i as int] == ESC && seq@[i + 1] == 0x5c);
                return true;
            }
            i += 1;
        }
        false
    } else if kind == 0x28 || kind == 0x29 || kind == 0x2a || kind == 0x2b {
        seq.len() >= 3
    } else {
        true
    }
}

/// First position of the trailing window the prompt check looks at: the
/// last 33 bytes.
pub open spec fn window_start(len: int) -> int {
    if len > 33 {
        len - 33
    } else {
        0
    }
}

/// The last ESC before position `j` and within the trailing window.
pub open spec fn last_esc_from(b: Seq<u8>, j: int) -> Option<int>
    decreases j,
{
    if j <= window_start(b.len() as int) || j <= 0 {
        None
    } else if b[j - 1] == ESC {
        Some(j - 1)
    } else {
        last_esc_from(b, j - 1)
    }
}

/// How much of `b` can be shown as prompt text: all of it, unless the last
/// ESC in its trailing window starts an unfinished escape sequence, which is
/// then held back.
pub open spec fn spec_safe_prompt_end(b: Seq<u8>) -> int {
    match last_esc_from(b, b.len() as int) {
        Some(j) => if spec_complete_escape(b.subrange(j, b.len() as int)) {
            b.len() as int
        } else {
            j
        },
        None => b.len() as int,
    }
}

proof fn lemma_last_esc_from(b: Seq<u8>, j: int)
    requires
        j <= b.len(),
    ensures
        match last_esc_from(b, j) {
            Some(k) => window_start(b.len() as int) <= k < j && b[k] == ESC,
            None => true,
        },
    decreases j,
{
    if j > window_start(b.len() as int) && j > 0 && b[j - 1] != ESC {
        lemma_last_esc_from(b, j - 1);
    }
}

/// Byte offset up to which `buf` can be sent as prompt text without
/// splitting an ANSI escape sequence that is still arriving.
pub fn safe_prompt_end(buf: &[u8]) -> (r: usize)
    ensures
        r == spec_safe_prompt_end(buf@),
        r == buf@.len() || (r < buf@.len() && buf@[r as int] == ESC),
{
    let len = buf.len();
    proof {
        lemma_last_esc_from(buf@, len as int);
    }
    if len == 0 {
        return 0;
    }
    let mut j = len;
    while j > 0 && len - j < 33
        invariant
            j <= len == buf@.len(),
            last_esc_from(buf@, len as int) == last_esc_from(buf@, j as int),
            j >= window_start(len as int),
        decreases j,
    {
        j -= 1;
        if buf[j] == ESC {
            let tail = slice_from(buf, j);
            if is_complete_escape(tail) {
                return len;
            } else {
                return j;
            }
        }
    }
    len
}

/// The bytes of `buf` from `start` on.
fn slice_from(buf: &[u8], start: usize) -> (r: &[u8])
    requires
        start <= buf@.len(),
    ensures
        r@ == buf@.subrange(start as int, buf@.len() as int),
{
    let (_, tail) = buf.split_at(start);
    tail
}

/// The bytes of a line sent to the server: its UTF-8 text and CR LF.
pub fn frame_line(line: &str) -> (r: Vec<u8>)
    ensures
        r@ == line.spec_bytes() + seq![13u8, 10u8],
{
    let bytes = line.as_bytes();
    let mut r: Vec<u8> = Vec::new();
    let mut i: usize = 0;
    while i < bytes.len()
        invariant
            i <= bytes@.len(),
            bytes@ == line.spec_bytes(),
            r@ == bytes@.take(i as int),
        decreases bytes.len() - i,
    {
        r.push(bytes[i]);
        proof {
            assert(bytes@.take(i + 1) =~= bytes@.take(i as int).push(bytes@[i as int]));
        }
        i += 1;
    }
    r.push(13);
    r.push(10);
    assert(bytes@.take(bytes@.len() as int) =~= bytes@);
    assert(r@ =~= line.spec_bytes() + seq![13u8, 10u8]);
    r
}

// ---------------------------------------------------------------------------
// Telnet stream parser
// ---------------------------------------------------------------------------

/// What `String::from_utf8_lossy` makes of a byte sequence.
pub uninterp spec fn utf8_lossy(bytes: Seq<u8>) -> Seq<char>;

/// Decode bytes as UTF-8, replacing invalid sequences.
#[verifier::external_body]
fn decode_lossy(bytes: &[u8]) -> (s: String)
    ensures
        s@ == utf8_lossy(bytes@),
        vstd::utf8::valid_utf8(bytes@) ==> s@ == vstd::utf8::decode_utf8(bytes@),
{
    String::from_utf8_lossy(bytes).into_owned()
}

/// What a chunk of the telnet stream holds once commands are taken out: the
/// text bytes, the raw payloads of GMCP sub-negotiations, and the bytes to
/// answer with.
pub struct TelnetScan {
    pub text: Seq<u8>,
    pub gmcp: Seq<Seq<u8>>,
    pub responses: Seq<u8>,
}

/// Nothing found.
pub open spec fn empty_scan() -> TelnetScan {
    TelnetScan { text: seq![], gmcp: seq![], responses: seq![] }
}

/// `a` followed by `b`.
pub open spec fn scan_concat(a: TelnetScan, b: TelnetScan) -> TelnetScan {
    TelnetScan { text: a.text + b.text, gmcp: a.gmcp + b.gmcp, responses: a.responses + b.responses }
}

/// The answer to an option negotiation: NAWS is offered when asked for, the
/// server's ECHO and GMCP are accepted, everything else refused.
pub open spec fn negotiation_reply(verb: u8, opt: u8) -> Seq<u8> {
    if verb == DO && opt == OPT_NAWS {
        seq![IAC, WILL, OPT_NAWS]
    } else if verb == WILL && opt == OPT_ECHO {
        seq![IAC, DO, OPT_ECHO]
    } else if verb == WILL && opt == OPT_GMCP {
        seq![IAC, DO, OPT_GMCP]
    } else {
        seq![IAC, if verb == DO { WONT } else if verb == WILL { DONT } else { WONT }, opt]
    }
}

/// The payload of a sub-negotiation whose data starts at `j`, with `IAC IAC`
/// read as one IAC, up to `IAC SE` or the end of the chunk; and the position
/// after it.
pub open spec fn sb_payload(b: Seq<u8>, j: int) -> (Seq<u8>, int)
    decreases b.len() - j,
{
    if j >= b.len() {
        (seq![], j)
    } else if j + 1 < b.len() && b[j] == IAC && b[j + 1] == IAC {
        let r = sb_payload(b, j + 2);
        (seq![IAC] + r.0, r.1)
    } else if j + 1 < b.len() && b[j] == IAC && b[j + 1] == SE {
        (seq![], j + 2)
    } else {
        let r = sb_payload(b, j + 1);
        (seq![b[j]] + r.0, r.1)
    }
}

/// A sub-negotiation payload never ends before it starts.
pub proof fn lemma_sb_payload_end(b: Seq<u8>, j: int)
    ensures
        sb_payload(b, j).1 >= j,
        j <= b.len() ==> sb_payload(b, j).1 <= b.len(),
    decreases b.len() - j,
{
    if j < b.len() {
        if j + 1 < b.len() && b[j] == IAC && b[j + 1] == IAC {
            lemma_sb_payload_end(b, j + 2);
        } else if !(j + 1 < b.len() && b[j] == IAC && b[j + 1] == SE) {
            lemma_sb_payload_end(b, j + 1);
        }
    }
}

proof fn lemma_concat_empty(a: TelnetScan)
    ensures
        scan_concat(a, empty_scan()) == a,
{
    assert(a.text + seq![] =~= a.text);
    assert(a.gmcp + seq![] =~= a.gmcp);
    assert(a.responses + seq![] =~= a.responses);
}

/// The telnet stream from position `i` on: bytes other than IAC are text;
/// `IAC IAC` is a literal 0xFF; `IAC SB opt ... IAC SE` is a sub-negotiation
/// (kept when it is GMCP); `IAC WILL|WONT|DO|DONT opt` is answered; any other
/// `IAC x` is skipped.  A command cut off by the end of the chunk ends it.
pub open spec fn telnet_scan(b: Seq<u8>, i: int) -> TelnetScan
    decreases b.len() - i,
{
    if i < 0 || i >= b.len() {
        empty_scan()
    } else if b[i] != IAC {
        let r = telnet_scan(b, i + 1);
        TelnetScan { text: seq![b[i]] + r.text, ..r }
    } else if i + 1 >= b.len() {
        empty_scan()
    } else {
        let c = b[i + 1];
        if c == IAC {
            let r = telnet_scan(b, i + 2);
            TelnetScan { text: seq![IAC] + r.text, ..r }
        } else if c == SB {
            if i + 2 >= b.len() {
                empty_scan()
            } else {
                let opt = b[i + 2];
                let p = sb_payload(b, i + 3);
                proof {
                    lemma_sb_payload_end(b, i + 3);
                }
                let r = telnet_scan(b, p.1);
                if opt == OPT_GMCP {
                    TelnetScan { gmcp: seq![p.0] + r.gmcp, ..r }
                } else {
                    r
                }
            }
        } else if c == WILL || c == WONT || c == DO || c == DONT {
            if i + 2 >= b.len() {
                empty_scan()
            } else {
                let r = telnet_scan(b, i + 3);
                TelnetScan { responses: negotiation_reply(c, b[i + 2]) + r.responses, ..r }
            }
        } else {
            telnet_scan(b, i + 2)
        }
    }
}

/// Scanning `a + b` from a position past `a` is scanning `b`: what came
/// before does not change how the rest of the stream reads.
pub proof fn lemma_telnet_scan_shift(a: Seq<u8>, b: Seq<u8>, j: int)
    requires
        0 <= j,
    ensures
        telnet_scan(a + b, a.len() + j) == telnet_scan(b, j),
    decreases b.len() - j,
{
    let ab = a + b;
    let k = a.len() + j;
    if j < b.len() {
        assert(ab[k] == b[j]);
        if j + 1 < b.len() {
            assert(ab[k + 1] == b[j + 1]);
        }
        if j + 2 < b.len() {
            assert(ab[k + 2] == b[j + 2]);
        }
        if b[j] != IAC {
            lemma_telnet_scan_shift(a, b, j + 1);
        } else if j + 1 < b.len() {
            let c = b[j + 1];
            if c == IAC {
                lemma_telnet_scan_shift(a, b, j + 2);
            } else if c == SB {
                if j + 2 < b.len() {
                    lemma_sb_payload_shift(a, b, j + 3);
                    lemma_sb_payload_end(b, j + 3);
                    lemma_telnet_scan_shift(a, b, sb_payload(b, j + 3).1);
                }
            } else if c == WILL || c == WONT || c == DO || c == DONT {
                if j + 2 < b.len() {
                    lemma_telnet_scan_shift(a, b, j + 3);
                }
            } else {
                lemma_telnet_scan_shift(a, b, j + 2);
            }
        }
    }
}

/// Bytes of `p` holding no IAC are text: scanning `p + s` from `k` gives the
/// rest of `p` as text, followed by the scan of `s`.
pub proof fn lemma_telnet_scan_text_prefix(p: Seq<u8>, s: Seq<u8>, k: int)
    requires
        0 <= k <= p.len(),
        forall|i: int| 0 <= i < p.len() ==> #[trigger] p[i] != IAC,
    ensures
        telnet_scan(p + s, k) == (TelnetScan { text: p.skip(k) + telnet_scan(s, 0).text, ..telnet_scan(s, 0) }),
    decreases p.len() - k,
{
    if k == p.len() {
        lemma_telnet_scan_shift(p, s, 0);
        assert(p.skip(k) + telnet_scan(s, 0).text =~= telnet_scan(s, 0).text);
    } else {
        assert((p + s)[k] == p[k]);
        lemma_telnet_scan_text_prefix(p, s, k + 1);
        assert(p.skip(k) =~= seq![p[k]] + p.skip(k + 1));
        assert(seq![p[k]] + (p.skip(k + 1) + telnet_scan(s, 0).text) =~= p.skip(k) + telnet_scan(s, 0).text);
    }
}

/// Whether `c` after IAC is a command that the stream parser acts on.
pub open spec fn is_known_command(c: u8) -> bool {
    c == IAC || c == SB || c == WILL || c == WONT || c == DO || c == DONT
}

/// An IAC with a command byte the parser does not know (such as GA or NOP)
/// contributes nothing: the chunk reads exactly as it would without those
/// two bytes, text, GMCP messages and answers after it included.  Stated for
/// a command at the point where the scan stands, and for one that follows
/// plain text.
pub proof fn law_unknown_command_skipped(p: Seq<u8>, c: u8, t: Seq<u8>)
    requires
        !is_known_command(c),
        forall|i: int| 0 <= i < p.len() ==> #[trigger] p[i] != IAC,
    ensures
        telnet_scan(seq![IAC, c] + t, 0) == telnet_scan(t, 0),
        telnet_scan(p + (seq![IAC, c] + t), 0) == telnet_scan(p + t, 0),
{
    let cmd = seq![IAC, c];
    let s = cmd + t;
    assert(s[0] == IAC && s[1] == c);
    lemma_telnet_scan_shift(cmd, t, 0);
    lemma_telnet_scan_text_prefix(p, s, 0);
    lemma_telnet_scan_text_prefix(p, t, 0);
}

/// The GMCP messages of raw payloads: each decoded and trimmed, empty ones
/// dropped.
pub open spec fn gmcp_messages(ps: Seq<Seq<u8>>) -> Seq<Seq<char>>
    decreases ps.len(),
{
    if ps.len() == 0 {
        seq![]
    } else {
        let r = gmcp_messages(ps.drop_last());
        let m = crate::text::trim(utf8_lossy(ps.last()));
        if m.len() > 0 {
            r.push(m)
        } else {
            r
        }
    }
}

/// `gmcp_messages` for payloads that are well-formed UTF-8: each payload
/// decoded exactly, trimmed, empty ones dropped.
pub open spec fn gmcp_messages_utf8(ps: Seq<Seq<u8>>) -> Seq<Seq<char>>
    decreases ps.len(),
{
    if ps.len() == 0 {
        seq![]
    } else {
        let r = gmcp_messages_utf8(ps.drop_last());
        let m = crate::text::trim(decode_utf8(ps.last()));
        if m.len() > 0 {
            r.push(m)
        } else {
            r
        }
    }
}

proof fn lemma_gmcp_messages_utf8(ps: Seq<Seq<u8>>)
    requires
        forall|k: int| 0 <= k < ps.len() ==> utf8_lossy(#[trigger] ps[k]) == decode_utf8(ps[k]),
    ensures
        gmcp_messages(ps) == gmcp_messages_utf8(ps),
    decreases ps.len(),
{
    if ps.len() > 0 {
        let q = ps.drop_last();
        assert forall|k: int| 0 <= k < q.len() implies utf8_lossy(#[trigger] q[k]) == decode_utf8(q[k]) by {
            assert(q[k] == ps[k]);
        }
        lemma_gmcp_messages_utf8(q);
        assert(utf8_lossy(ps[ps.len() - 1]) == decode_utf8(ps[ps.len() - 1]));
    }
}

/// Printable text and GMCP messages of a chunk of the telnet stream.
pub struct TelnetParseResult {
    pub text: String,
    pub gmcp: Vec<String>,
}

/// Read a sub-negotiation payload starting at `j`.
fn read_sb_payload(buf: &[u8], j: usize) -> (r: (Vec<u8>, usize))
    requires
        j <= buf@.len(),
    ensures
        (r.0@, r.1 as int) == sb_payload(buf@, j as int),
        j <= r.1 <= buf@.len(),
{
    let mut payload: Vec<u8> = Vec::new();
    let mut i = j;
    while i < buf.len()
        invariant
            j <= i <= buf@.len(),
            sb_payload(buf@, j as int) == (payload@ + sb_payload(buf@, i as int).0, sb_payload(buf@, i as int).1),
        decreases buf.len() - i,
    {
        if i + 1 < buf.len() && buf[i] == IAC && buf[i + 1] == IAC {
            payload.push(IAC);
            proof {
                let r = sb_payload(buf@, i + 2);
                assert(payload@ + r.0 =~= payload@.drop_last() + (seq![IAC] + r.0));
            }
            i += 2;
            continue;
        }
        if i + 1 < buf.len() && buf[i] == IAC && buf[i + 1] == SE {
            proof {
                assert(payload@ + seq![] =~= payload@);
            }
            return (payload, i + 2);
        }
        let ghost before = payload@;
        payload.push(buf[i]);
        proof {
            let r = sb_payload(buf@, i + 1);
            assert(payload@ + r.0 =~= before + (seq![buf@[i as int]] + r.0));
        }
        i += 1;
    }
    proof {
        assert(payload@ + seq![] =~= payload@);
    }
    (payload, i)
}

/// Parse a chunk of the telnet stream: strip commands, answer option
/// negotiations by appending to `responses`, and return the printable text
/// and the GMCP messages.
pub fn parse_telnet(buf: &[u8], responses: &mut Vec<u8>) -> (r: TelnetParseResult)
    ensures
        r.text@ == utf8_lossy(telnet_scan(buf@, 0).text),
        r.gmcp@.map_values(|s: String| s@) == gmcp_messages(telnet_scan(buf@, 0).gmcp),
        final(responses)@ == old(responses)@ + telnet_scan(buf@, 0).responses,
        vstd::utf8::valid_utf8(telnet_scan(buf@, 0).text) ==> r.text@ == decode_utf8(telnet_scan(buf@, 0).text),
        forall|k: int| 0 <= k < telnet_scan(buf@, 0).gmcp.len() && vstd::utf8::valid_utf8(#[trigger] telnet_scan(buf@, 0).gmcp[k])
            ==> utf8_lossy(telnet_scan(buf@, 0).gmcp[k]) == decode_utf8(telnet_scan(buf@, 0).gmcp[k]),
        (forall|k: int| 0 <= k < telnet_scan(buf@, 0).gmcp.len() ==> vstd::utf8::valid_utf8(#[trigger] telnet_scan(buf@, 0).gmcp[k]))
            ==> r.gmcp@.map_values(|s: String| s@) == gmcp_messages_utf8(telnet_scan(buf@, 0).gmcp),
{
    let ghost total = telnet_scan(buf@, 0);
    let ghost resp0 = responses@;
    let mut out: Vec<u8> = Vec::new();
    let mut gmcp: Vec<String> = Vec::new();
    let ghost mut raw: Seq<Seq<u8>> = seq![];
    let mut i: usize = 0;
    while i < buf.len()
        invariant
            i <= buf@.len(),
            total == telnet_scan(buf@, 0),
            total == scan_concat((TelnetScan { text: out@, gmcp: raw, responses: responses@.subrange(resp0.len() as int, responses@.len() as int) }), telnet_scan(buf@, i as int)),
            responses@.len() >= resp0.len(),
            responses@.subrange(0, resp0.len() as int) == resp0,
            gmcp@.map_values(|s: String| s@) == gmcp_messages(raw),
            forall|k: int| 0 <= k < raw.len() && vstd::utf8::valid_utf8(#[trigger] raw[k]) ==> utf8_lossy(raw[k]) == decode_utf8(raw[k]),
        ensures
            total == (TelnetScan { text: out@, gmcp: raw, responses: responses@.subrange(resp0.len() as int, responses@.len() as int) }),
            responses@.len() >= resp0.len(),
            responses@.subrange(0, resp0.len() as int) == resp0,
            gmcp@.map_values(|s: String| s@) == gmcp_messages(raw),
            forall|k: int| 0 <= k < raw.len() && vstd::utf8::valid_utf8(#[trigger] raw[k]) ==> utf8_lossy(raw[k]) == decode_utf8(raw[k]),
        decreases buf.len() - i,
    {
        let ghost acc_resp = responses@.subrange(resp0.len() as int, responses@.len() as int);
        if buf[i] != IAC {
            let ghost before = out@;
            out.push(buf[i]);
            proof {
                let r = telnet_scan(buf@, i + 1);
                assert(out@ + r.text =~= before + (seq![buf@[i as int]] + r.text));
            }
            i += 1;
            continue;
        }
        if i + 1 >= buf.len() {
            proof {
                lemma_concat_empty(TelnetScan { text: out@, gmcp: raw, responses: acc_resp });
            }
            break;
        }
        let c = buf[i + 1];
        if c == IAC {
            let ghost before = out@;
            out.push(IAC);
            proof {
                let r = telnet_scan(buf@, i + 2);
                assert(out@ + r.text =~= before + (seq![IAC] + r.text));
            }
            i += 2;
        } else if c == SB {
            if i + 2 >= buf.len() {
                proof {
                    lemma_concat_empty(TelnetScan { text: out@, gmcp: raw, responses: acc_resp });
                }
                break;
            }
            let opt = buf[i + 2];
            let (payload, end) = read_sb_payload(buf, i + 3);
            if opt == OPT_GMCP {
                let text = decode_lossy(payload.as_slice());
                let tv = chars_of_string(&text);
                let trimmed = crate::text::trim_vec(&tv);
                let ghost before = gmcp@;
                proof {
                    let r = telnet_scan(buf@, end as int);
                    assert(raw.push(payload@) + r.gmcp =~= raw + (seq![payload@] + r.gmcp));
                    assert(raw.push(payload@).drop_last() =~= raw);
                }
                if trimmed.len() > 0 {
                    let msg = crate::text::string_of(&trimmed);
                    gmcp.push(msg);
                    proof {
                        assert(gmcp@.map_values(|s: String| s@) =~= before.map_values(|s: String| s@).push(msg@));
                    }
                }
                proof {
                    raw = raw.push(payload@);
                }
            }
            i = end;
        } else if c == WILL || c == WONT || c == DO || c == DONT {
            if i + 2 >= buf.len() {
                proof {
                    lemma_concat_empty(TelnetScan { text: out@, gmcp: raw, responses: acc_resp });
                }
                break;
            }
            let opt = buf[i + 2];
            let reply: [u8; 3] = if c == DO && opt == OPT_NAWS {
                iac_response(WILL, OPT_NAWS)
            } else if c == WILL && opt == OPT_ECHO {
                iac_response(DO, OPT_ECHO)
            } else if c == WILL && opt == OPT_GMCP {
                iac_response(DO, OPT_GMCP)
            } else {
                iac_response(refuse(c), opt)
            };
            let ghost before = responses@;
            responses.push(reply[0]);
            responses.push(reply[1]);
            responses.push(reply[2]);
            proof {
                assert(responses@ =~= before + reply@);
                assert(reply@ =~= negotiation_reply(c, opt));
                let r = telnet_scan(buf@, i + 3);
                assert(responses@.subrange(resp0.len() as int, responses@.len() as int) =~= acc_resp + reply@);
                assert(responses@.subrange(0, resp0.len() as int) =~= before.subrange(0, resp0.len() as int));
                assert((acc_resp + reply@) + r.responses =~= acc_resp + (reply@ + r.responses));
            }
            i += 3;
        } else {
            i += 2;
        }
        proof {
            if i >= buf.len() {
                lemma_concat_empty(TelnetScan { text: out@, gmcp: raw, responses: responses@.subrange(resp0.len() as int, responses@.len() as int) });
            }
        }
    }
    proof {
        let acc = responses@.subrange(resp0.len() as int, responses@.len() as int);
        assert(responses@ =~= resp0 + acc);
    }
    let text = decode_lossy(out.as_slice());
    proof {
        if forall|k: int| 0 <= k < raw.len() ==> vstd::utf8::valid_utf8(#[trigger] raw[k]) {
            assert forall|k: int| 0 <= k < raw.len() implies utf8_lossy(#[trigger] raw[k]) == decode_utf8(raw[k]) by {
                assert(vstd::utf8::valid_utf8(raw[k]));
            }
            lemma_gmcp_messages_utf8(raw);
        }
    }
    TelnetParseResult { text, gmcp }
}

/// The characters of a string.
fn chars_of_string(s: &String) -> (v: Vec<char>)
    ensures
        v@ == s@,
{
    crate::text::chars_of(s.as_str())
}

// ---------------------------------------------------------------------------
// Latency samples
// ---------------------------------------------------------------------------

/// What started a latency measurement.
#[derive(Debug, Clone, Copy, PartialEq, Eq, Structural)]
pub enum LatencySource {
    /// A command the user sent.
    UserCommand,
    /// A periodic Are-You-There probe.
    Probe,
}

/// An outstanding latency measurement: its source and when it started, in
/// milliseconds of a monotonic clock.
#[derive(Debug, Clone, Copy, PartialEq, Eq, Structural)]
pub struct PendingLatency {
    pub started_ms: u64,
    pub source: LatencySource,
}

/// Maximum age of a sample of the given source, in milliseconds.
pub open spec fn spec_max_age(source: LatencySource) -> u64 {
    match source {
        LatencySource::UserCommand => USER_LATENCY_MAX_AGE_MS,
        LatencySource::Probe => PROBE_LATENCY_MAX_AGE_MS,
    }
}

/// Milliseconds elapsed from `started` to `now` (none if the clock reads earlier).
pub open spec fn elapsed_ms(started: u64, now: u64) -> u64 {
    if now >= started {
        (now - started) as u64
    } else {
        0
    }
}

impl PendingLatency {
    /// A measurement of the given source starting at `now_ms`.
    pub fn new(source: LatencySource, now_ms: u64) -> (p: PendingLatency)
        ensures
            p.source == source,
            p.started_ms == now_ms,
    {
        PendingLatency { started_ms: now_ms, source }
    }

    /// How long a sample of this source stays meaningful, in milliseconds.
    pub fn max_age(self) -> (ms: u64)
        ensures
            ms == spec_max_age(self.source),
    {
        match self.source {
            LatencySource::UserCommand => USER_LATENCY_MAX_AGE_MS,
            LatencySource::Probe => PROBE_LATENCY_MAX_AGE_MS,
        }
    }

    /// Whether the measurement is older than its maximum age at `now_ms`.
    pub fn is_stale(self, now_ms: u64) -> (b: bool)
        ensures
            b == (elapsed_ms(self.started_ms, now_ms) > spec_max_age(self.source)),
    {
        let elapsed = if now_ms >= self.started_ms { now_ms - self.started_ms } else { 0 };
        elapsed > self.max_age()
    }
}

// ---------------------------------------------------------------------------
// Messages between the connection and the screen
// ---------------------------------------------------------------------------

/// Messages from the connection to the screen.
#[derive(Debug)]
pub enum NetEvent {
    /// A decoded line of text from the server (may contain ANSI escape codes).
    Line(String),
    /// A partial line that ended without a newline (e.g. a prompt).
    Prompt(String),
    /// The connection was established.
    Connected,
    /// The connection was lost or refused.
    Disconnected(String),
    /// A GMCP message payload (for example `Room.Info {...}`).
    Gmcp(String),
    /// A latency sample in milliseconds.
    Latency(u64),
}

/// Messages from the screen to the connection.
#[derive(Debug)]
pub enum UiEvent {
    /// Send a line to the server (CR LF is appended).
    SendLine(String),
    /// Update NAWS with the new terminal size.
    Resize { cols: u16, rows: u16 },
    /// Close the connection.
    Disconnect,
}

} // verus!

verus! {

use vstd::utf8::{decode_utf8, encode_utf8};
use crate::text::find_char;

// ---------------------------------------------------------------------------
// Line framing, auto-login and latency decisions of a connection
// ---------------------------------------------------------------------------

/// Where auto-login stands.
#[derive(Debug, Clone, Copy, PartialEq, Eq, Structural)]
pub enum LoginStep {
    /// Send the login name on the first server output.
    SendLogin,
    /// Send the password on the next prompt.
    SendPassword,
    /// Nothing more to send.
    Done,
}

/// The per-connection state the read loop keeps between reads.
pub struct LinkState {
    /// Text received after the last newline.
    pub line_buf: String,
    /// Auto-login progress.
    pub login_step: LoginStep,
    /// The latency measurement under way, if any.
    pub pending_latency: Option<PendingLatency>,
}

/// The state of a connection, as plain values.
pub struct LinkModel {
    pub line_buf: Seq<char>,
    pub login_step: LoginStep,
    pub pending_latency: Option<PendingLatency>,
}

impl View for LinkState {
    type V = LinkModel;

    open spec fn view(&self) -> LinkModel {
        LinkModel {
            line_buf: self.line_buf@,
            login_step: self.login_step,
            pending_latency: self.pending_latency,
        }
    }
}

/// What a read of server text produces, in the order it is to be acted on:
/// complete lines, bytes to write for auto-login, a prompt, a latency sample.
pub struct ReadOutcome {
    pub lines: Vec<String>,
    pub send: Option<Vec<u8>>,
    pub prompt: Option<String>,
    pub latency_ms: Option<u64>,
}

/// `s` without its trailing carriage returns.
pub open spec fn strip_cr_end(s: Seq<char>) -> Seq<char>
    decreases s.len(),
{
    if s.len() > 0 && s.last() == '\r' {
        strip_cr_end(s.drop_last())
    } else {
        s
    }
}

/// The complete lines of `s` (each without its newline and trailing carriage
/// returns) and the text after the last newline.
pub open spec fn split_lines(s: Seq<char>) -> (Seq<Seq<char>>, Seq<char>)
    decreases s.len(),
{
    match find_char(s, '\n') {
        Some(p) => {
            proof {
                crate::text::lemma_find_char_props(s, '\n');
            }
            let r = split_lines(s.skip(p + 1));
            (seq![strip_cr_end(s.take(p))] + r.0, r.1)
        },
        None => (seq![], s),
    }
}

/// Partial text split into the part shown as a prompt and the part held
/// back, by `spec_safe_prompt_end` on its UTF-8 bytes.
pub open spec fn prompt_split(rest: Seq<char>) -> (Seq<char>, Seq<char>) {
    let b = encode_utf8(rest);
    let safe = spec_safe_prompt_end(b);
    (decode_utf8(b.subrange(0, safe)), decode_utf8(b.subrange(safe, b.len() as int)))
}

/// The bytes of a line sent to the server.
pub open spec fn line_bytes(s: Seq<char>) -> Seq<u8> {
    encode_utf8(s) + seq![13u8, 10u8]
}

/// The outcome of a read, as plain values.
pub struct ReadModel {
    pub lines: Seq<Seq<char>>,
    pub send: Option<Seq<u8>>,
    pub prompt: Option<Seq<char>>,
    pub latency_ms: Option<u64>,
}

/// What the connection does with newly received text: complete lines are
/// emitted; the first output triggers sending the login name and the next
/// prompt the password (or ends auto-login when there is none); trailing
/// text is shown as a prompt, without carriage returns and without an
/// unfinished escape sequence, which is kept for the next read; any output
/// completes the latency measurement under way, which yields a sample unless
/// it is stale.
pub open spec fn spec_on_server_text(
    st: LinkModel,
    text: Seq<char>,
    login: Option<(Seq<char>, Option<Seq<char>>)>,
    now_ms: u64,
) -> (LinkModel, ReadModel) {
    let (lines, rest) = split_lines(st.line_buf + text);
    let had_lines = lines.len() > 0;
    let had_prompt = rest.len() > 0;
    let (send, step) = if st.login_step == LoginStep::SendLogin && (had_lines || had_prompt) {
        match login {
            Some((l, _)) => (Some(line_bytes(l)), LoginStep::SendPassword),
            None => (None, st.login_step),
        }
    } else if st.login_step == LoginStep::SendPassword && had_prompt {
        match login {
            Some((_, Some(pw))) => (Some(line_bytes(pw)), LoginStep::Done),
            _ => (None, LoginStep::Done),
        }
    } else {
        (None, st.login_step)
    };
    let (prompt, kept) = if had_prompt {
        let (shown, tail) = prompt_split(rest);
        (if shown.len() > 0 { Some(shown.filter(|c: char| c != '\r')) } else { None }, tail)
    } else {
        (None, rest)
    };
    let (pending, latency) = if had_lines || had_prompt {
        match st.pending_latency {
            Some(p) => (
                None,
                if elapsed_ms(p.started_ms, now_ms) > spec_max_age(p.source) {
                    None
                } else {
                    Some(elapsed_ms(p.started_ms, now_ms))
                },
            ),
            None => (None, None),
        }
    } else {
        (st.pending_latency, None)
    };
    (
        LinkModel { line_buf: kept, login_step: step, pending_latency: pending },
        ReadModel { lines, send, prompt, latency_ms: latency },
    )
}

/// `v` without its trailing carriage returns.
fn strip_cr_end_vec(v: &Vec<char>) -> (r: Vec<char>)
    ensures
        r@ == strip_cr_end(v@),
{
    let mut n = v.len();
    assert(v@.take(v@.len() as int) =~= v@);
    while n > 0 && v[n - 1] == '\r'
        invariant
            n <= v@.len(),
            strip_cr_end(v@) == strip_cr_end(v@.take(n as int)),
        decreases n,
    {
        proof {
            assert(v@.take(n as int).drop_last() =~= v@.take(n - 1));
        }
        n -= 1;
    }
    assert(v@.take(v@.len() as int) =~= v@);
    crate::text::slice_vec(v, 0, n)
}

/// The bytes of a line sent to the server.
fn line_bytes_of(s: &String) -> (r: Vec<u8>)
    ensures
        r@ == line_bytes(s@),
{
    frame_line(s.as_str())
}

/// `s` without carriage returns.
fn remove_cr(s: &str) -> (r: String)
    ensures
        r@ == s@.filter(|c: char| c != '\r'),
{
    let v = crate::text::chars_of(s);
    let mut out: Vec<char> = Vec::new();
    let mut i: usize = 0;
    while i < v.len()
        invariant
            i <= v@.len(),
            out@ == v@.take(i as int).filter(|c: char| c != '\r'),
        decreases v.len() - i,
    {
        proof {
            assert(v@.take(i + 1).drop_last() =~= v@.take(i as int));
            reveal(Seq::filter);
        }
        if v[i] != '\r' {
            out.push(v[i]);
        }
        i += 1;
    }
    assert(v@.take(v@.len() as int) =~= v@);
    crate::text::string_of(&out)
}

impl LinkState {
    /// A fresh connection: nothing buffered, no measurement, auto-login armed
    /// when there is something to log in with.
    pub fn new(auto_login: bool) -> (s: LinkState)
        ensures
            s@ == (LinkModel {
                line_buf: Seq::empty(),
                login_step: if auto_login { LoginStep::SendLogin } else { LoginStep::Done },
                pending_latency: None,
            }),
    {
        LinkState {
            line_buf: String::new(),
            login_step: if auto_login { LoginStep::SendLogin } else { LoginStep::Done },
            pending_latency: None,
        }
    }

    /// Take in text decoded from the server at time `now_ms`.
    pub fn on_server_text(
        &mut self,
        text: &str,
        login: &Option<(String, Option<String>)>,
        now_ms: u64,
    ) -> (out: ReadOutcome)
        ensures
            ({
                let login_view = match login {
                    Some((l, p)) => Some((l@, match p {
                        Some(pw) => Some(pw@),
                        None => None,
                    })),
                    None => None,
                };
                let (m, r) = spec_on_server_text(old(self)@, text@, login_view, now_ms);
                &&& final(self)@ == m
                &&& out.lines@.map_values(|s: String| s@) == r.lines
                &&& match out.send {
                    Some(b) => r.send == Some(b@),
                    None => r.send is None,
                }
                &&& match out.prompt {
                    Some(p) => r.prompt == Some(p@),
                    None => r.prompt is None,
                }
                &&& out.latency_ms == r.latency_ms
            }),
    {
        let ghost login_view = match login {
            Some((l, p)) => Some((l@, match p {
                Some(pw) => Some(pw@),
                None => None,
            })),
            None => None,
        };
        let ghost spec = spec_on_server_text(self@, text@, login_view, now_ms);
        // Split into lines.
        let a = crate::text::chars_of(self.line_buf.as_str());
        let b = crate::text::chars_of(text);
        let all = crate::text::concat_vec(&a, &b);
        let mut lines: Vec<String> = Vec::new();
        let mut start: usize = 0;
        let mut i: usize = 0;
        proof {
            assert(all@.skip(0) =~= all@);
            assert(lines@.map_values(|s: String| s@) + split_lines(all@).0 =~= split_lines(all@).0);
        }
        while i < all.len()
            invariant
                start <= i <= all@.len(),
                split_lines(all@) == (lines@.map_values(|s: String| s@) + split_lines(all@.skip(start as int)).0,
                    split_lines(all@.skip(start as int)).1),
                forall|k: int| start <= k < i ==> #[trigger] all@[k] != '\n',
            decreases all.len() - i,
        {
            if all[i] == '\n' {
                let ghost s = all@.skip(start as int);
                proof {
                    crate::text::lemma_find_char_props(s, '\n');
                    assert(s[i - start] == '\n');
                    match find_char(s, '\n') {
                        Some(p) => {
                            if p < i - start {
                                assert(all@[start + p] == s[p]);
                            }
                        },
                        None => {},
                    }
                    assert(find_char(s, '\n') == Some(i - start));
                    assert(s.skip(i - start + 1) =~= all@.skip(i + 1));
                    assert(s.take(i - start) =~= all@.subrange(start as int, i as int));
                }
                let piece = crate::text::slice_vec(&all, start, i);
                let line_chars = strip_cr_end_vec(&piece);
                let line = crate::text::string_of(&line_chars);
                let ghost before = lines@;
                lines.push(line);
                proof {
                    assert(lines@.map_values(|s: String| s@) =~= before.map_values(|s: String| s@).push(line@));
                    let r = split_lines(all@.skip(i + 1));
                    assert(before.map_values(|s: String| s@).push(line@) + r.0 =~= before.map_values(|s: String| s@) + (seq![line@] + r.0));
                }
                start = i + 1;
            }
            i += 1;
        }
        let ghost s_end = all@.skip(start as int);
        proof {
            crate::text::lemma_find_char_props(s_end, '\n');
            match find_char(s_end, '\n') {
                Some(p) => {
                    assert(all@[start + p] == s_end[p]);
                },
                None => {},
            }
            assert(lines@.map_values(|s: String| s@) + seq![] =~= lines@.map_values(|s: String| s@));
        }
        let rest_chars = crate::text::slice_vec(&all, start, all.len());
        assert(rest_chars@ =~= s_end);
        let had_lines = lines.len() > 0;
        let had_prompt = rest_chars.len() > 0;
        // Auto-login.
        let mut send: Option<Vec<u8>> = None;
        if self.login_step == LoginStep::SendLogin && (had_lines || had_prompt) {
            match login {
                Some((l, _)) => {
                    self.login_step = LoginStep::SendPassword;
                    send = Some(line_bytes_of(l));
                },
                None => {},
            }
        } else if self.login_step == LoginStep::SendPassword && had_prompt {
            match login {
                Some((_, Some(pw))) => {
                    send = Some(line_bytes_of(pw));
                },
                _ => {},
            }
            self.login_step = LoginStep::Done;
        }
        // Prompt.
        let rest = crate::text::string_of(&rest_chars);
        let mut prompt: Option<String> = None;
        if had_prompt {
            let bytes = rest.as_str().as_bytes();
            let safe = safe_prompt_end(bytes);
            proof {
                let eb = encode_utf8(rest@);
                vstd::utf8::encode_utf8_valid_utf8(rest@);
                vstd::utf8::is_char_boundary_start_end_of_seq(eb);
                if (safe as int) < eb.len() {
                    vstd::utf8::is_char_boundary_iff_not_is_continuation_byte(eb, safe as int);
                }
            }
            let (shown, tail) = rest.as_str().split_at(safe);
            proof {
                vstd::utf8::encode_utf8_decode_utf8(shown@);
                vstd::utf8::encode_utf8_decode_utf8(tail@);
            }
            if safe > 0 {
                prompt = Some(remove_cr(shown));
                proof {
                    vstd::utf8::encode_utf8_decode_utf8(rest@);
                    assert(shown@.len() > 0) by {
                        if shown@.len() == 0 {
                            assert(encode_utf8(shown@) =~= Seq::<u8>::empty());
                        }
                    }
                }
            } else {
                proof {
                    assert(encode_utf8(rest@).subrange(0, 0) =~= Seq::<u8>::empty());
                    assert(decode_utf8(Seq::<u8>::empty()) =~= Seq::<char>::empty());
                }
            }
            self.line_buf = tail.to_string();
        } else {
            self.line_buf = rest;
        }
        // Latency.
        let mut latency_ms: Option<u64> = None;
        if had_lines || had_prompt {
            match self.pending_latency {
                Some(p) => {
                    if !p.is_stale(now_ms) {
                        latency_ms = Some(if now_ms >= p.started_ms { now_ms - p.started_ms } else { 0 });
                    }
                },
                None => {},
            }
            self.pending_latency = None;
        }
        ReadOutcome { lines, send, prompt, latency_ms }
    }

    /// A line was sent to the server at `now_ms`: a user command starts a
    /// latency measurement, replacing a probe but not an earlier command.
    pub fn on_user_line(&mut self, now_ms: u64)
        ensures
            final(self).line_buf@ == old(self).line_buf@,
            final(self).login_step == old(self).login_step,
            final(self).pending_latency == (match old(self).pending_latency {
                Some(p) => if p.source == LatencySource::UserCommand {
                    old(self).pending_latency
                } else {
                    Some(PendingLatency { started_ms: now_ms, source: LatencySource::UserCommand })
                },
                None => Some(PendingLatency { started_ms: now_ms, source: LatencySource::UserCommand }),
            }),
    {
        let keep = match self.pending_latency {
            Some(p) => p.source == LatencySource::UserCommand,
            None => false,
        };
        if !keep {
            self.pending_latency = Some(PendingLatency::new(LatencySource::UserCommand, now_ms));
        }
    }

    /// The probe timer fired at `now_ms`: a stale measurement is dropped, and
    /// a probe is due when none is under way.
    pub fn probe_due(&mut self, now_ms: u64) -> (due: bool)
        ensures
            final(self).line_buf@ == old(self).line_buf@,
            final(self).login_step == old(self).login_step,
            final(self).pending_latency == (match old(self).pending_latency {
                Some(p) => if elapsed_ms(p.started_ms, now_ms) > spec_max_age(p.source) {
                    None
                } else {
                    old(self).pending_latency
                },
                None => None,
            }),
            due == final(self).pending_latency is None,
    {
        let stale = match self.pending_latency {
            Some(p) => p.is_stale(now_ms),
            None => false,
        };
        if stale {
            self.pending_latency = None;
        }
        self.pending_latency.is_none()
    }

    /// A probe was written at `now_ms`: it starts a measurement.
    pub fn probe_sent(&mut self, now_ms: u64)
        ensures
            final(self).line_buf@ == old(self).line_buf@,
            final(self).login_step == old(self).login_step,
            final(self).pending_latency == Some(PendingLatency { started_ms: now_ms, source: LatencySource::Probe }),
    {
        self.pending_latency = Some(PendingLatency::new(LatencySource::Probe, now_ms));
    }
}

} // verus!

verus! {

use vstd::utf8::encode_utf8 as encode_chars;

// ---------------------------------------------------------------------------
// Laws
// ---------------------------------------------------------------------------

proof fn lemma_iac_escape_concat(a: Seq<u8>, b: Seq<u8>)
    ensures
        iac_escape(a + b) == iac_escape(a) + iac_escape(b),
    decreases b.len(),
{
    if b.len() == 0 {
        assert(a + b =~= a);
        assert(iac_escape(a) + seq![] =~= iac_escape(a));
    } else {
        assert((a + b).drop_last() =~= a + b.drop_last());
        lemma_iac_escape_concat(a, b.drop_last());
        if b.last() == IAC {
            assert(iac_escape(a) + iac_escape(b.drop_last()) + seq![IAC, IAC] =~= iac_escape(a) + (iac_escape(b.drop_last()) + seq![IAC, IAC]));
        } else {
            assert((iac_escape(a) + iac_escape(b.drop_last())).push(b.last()) =~= iac_escape(a) + iac_escape(b.drop_last()).push(b.last()));
        }
    }
}

proof fn lemma_sb_payload_shift(x: Seq<u8>, b: Seq<u8>, j: int)
    requires
        0 <= j <= b.len(),
    ensures
        sb_payload(x + b, x.len() + j) == (sb_payload(b, j).0, sb_payload(b, j).1 + x.len()),
    decreases b.len() - j,
{
    let xb = x + b;
    let k = x.len() + j;
    if j < b.len() {
        assert(xb[k] == b[j]);
        if j + 1 < b.len() {
            assert(xb[k + 1] == b[j + 1]);
        }
        if j + 1 < b.len() && b[j] == IAC && b[j + 1] == IAC {
            lemma_sb_payload_shift(x, b, j + 2);
        } else if !(j + 1 < b.len() && b[j] == IAC && b[j + 1] == SE) {
            lemma_sb_payload_shift(x, b, j + 1);
        }
    }
}

/// Reading a sub-negotiation gives back exactly the data that was written
/// into it with IAC bytes doubled (as `naws_packet` writes it), stopping
/// right after the closing `IAC SE`.
pub proof fn law_sb_payload_unescapes(data: Seq<u8>)
    ensures
        sb_payload(iac_escape(data) + seq![IAC, SE], 0) == (data, iac_escape(data).len() + 2int),
    decreases data.len(),
{
    if data.len() == 0 {
        assert(iac_escape(data) + seq![IAC, SE] =~= seq![IAC, SE]);
    } else {
        let x = data[0];
        let rest = data.drop_first();
        assert(data =~= seq![x] + rest);
        lemma_iac_escape_concat(seq![x], rest);
        assert(seq![x].drop_last() =~= Seq::<u8>::empty());
        let e1 = iac_escape(seq![x]);
        assert(iac_escape(seq![x].drop_last()) =~= Seq::<u8>::empty());
        assert(seq![x].last() == x);
        let tail = iac_escape(rest) + seq![IAC, SE];
        law_sb_payload_unescapes(rest);
        lemma_sb_payload_shift(e1, tail, 0);
        assert(iac_escape(data) + seq![IAC, SE] =~= e1 + tail);
        if x == IAC {
            assert(e1 =~= seq![IAC, IAC]);
            assert(sb_payload(e1 + tail, 0) == (seq![IAC] + sb_payload(e1 + tail, 2).0, sb_payload(e1 + tail, 2).1));
            assert(seq![IAC] + rest =~= data);
        } else {
            assert(e1 =~= seq![x]);
            assert((e1 + tail)[0] == x);
            assert(sb_payload(e1 + tail, 0) == (seq![x] + sb_payload(e1 + tail, 1).0, sb_payload(e1 + tail, 1).1));
            assert(seq![x] + rest =~= data);
        }
    }
}

/// A chunk without IAC bytes is all text: nothing is answered and no GMCP
/// message is found.
pub proof fn law_plain_text_passes_through(b: Seq<u8>, i: int)
    requires
        0 <= i <= b.len(),
        forall|k: int| 0 <= k < b.len() ==> b[k] != IAC,
    ensures
        telnet_scan(b, i) == (TelnetScan { text: b.subrange(i, b.len() as int), gmcp: seq![], responses: seq![] }),
    decreases b.len() - i,
{
    if i < b.len() {
        law_plain_text_passes_through(b, i + 1);
        assert(seq![b[i]] + b.subrange(i + 1, b.len() as int) =~= b.subrange(i, b.len() as int));
    } else {
        assert(b.subrange(i, b.len() as int) =~= Seq::<u8>::empty());
    }
}

/// The text kept after the complete lines holds no newline.
pub proof fn law_rest_has_no_newline(s: Seq<char>)
    ensures
        !split_lines(s).1.contains('\n'),
    decreases s.len(),
{
    crate::text::lemma_find_char_props(s, '\n');
    match find_char(s, '\n') {
        Some(p) => {
            law_rest_has_no_newline(s.skip(p + 1));
        },
        None => {},
    }
}

/// Holding back an unfinished escape sequence loses no text: the part shown
/// as a prompt followed by the part kept is the whole partial line.
pub proof fn law_prompt_split_keeps_text(rest: Seq<char>)
    ensures
        prompt_split(rest).0 + prompt_split(rest).1 == rest,
{
    let b = encode_chars(rest);
    let safe = spec_safe_prompt_end(b);
    lemma_last_esc_from(b, b.len() as int);
    vstd::utf8::encode_utf8_valid_utf8(rest);
    vstd::utf8::is_char_boundary_start_end_of_seq(b);
    if safe < b.len() {
        vstd::utf8::is_char_boundary_iff_not_is_continuation_byte(b, safe);
    }
    vstd::utf8::decode_utf8_split(b, safe);
    vstd::utf8::encode_utf8_decode_utf8(rest);
}

/// Splitting text into lines leaves no partial line exactly when the text is
/// empty or ends with a newline; non-empty text gives a line or a partial
/// line.
pub proof fn lemma_split_lines_rest(s: Seq<char>)
    ensures
        (split_lines(s).1.len() == 0) == (s.len() == 0 || s.last() == '\n'),
        s.len() > 0 ==> split_lines(s).0.len() > 0 || split_lines(s).1.len() > 0,
    decreases s.len(),
{
    crate::text::lemma_find_char_props(s, '\n');
    match find_char(s, '\n') {
        Some(p) => {
            let t = s.skip(p + 1);
            lemma_split_lines_rest(t);
            if t.len() > 0 {
                assert(t.last() == s.last());
            } else {
                assert(p + 1 == s.len());
            }
        },
        None => {
            if s.len() > 0 {
                assert(s[s.len() - 1] != '\n');
            }
        },
    }
}

/// Auto-login sends the name on the first output of any kind, and the
/// password only once the server shows a prompt: a read whose text (with
/// what was held back) ends in a newline, or is empty, never sends the
/// password and leaves the step waiting; a read that ends in a partial line
/// sends the password, when there is one, and finishes auto-login.
pub proof fn law_login_password_on_prompt(
    st: LinkModel,
    text: Seq<char>,
    login: Option<(Seq<char>, Option<Seq<char>>)>,
    now_ms: u64,
)
    ensures
        ({
            let all = st.line_buf + text;
            let (m, r) = spec_on_server_text(st, text, login, now_ms);
            &&& st.login_step == LoginStep::SendPassword && (all.len() == 0 || all.last() == '\n') ==>
                    r.send is None && m.login_step == LoginStep::SendPassword
            &&& st.login_step == LoginStep::SendPassword && all.len() > 0 && all.last() != '\n' ==>
                    m.login_step == LoginStep::Done && r.send == match login {
                        Some((_, Some(pw))) => Some(encode_utf8(pw) + seq![13u8, 10u8]),
                        _ => None::<Seq<u8>>,
                    }
            &&& st.login_step == LoginStep::SendLogin && all.len() > 0 ==> match login {
                    Some((name, _)) => m.login_step == LoginStep::SendPassword
                        && r.send == Some(encode_utf8(name) + seq![13u8, 10u8]),
                    None => r.send is None && m.login_step == LoginStep::SendLogin,
                }
            &&& st.login_step == LoginStep::SendLogin && (all.len() == 0 || login is None) ==>
                    r.send is None && m.login_step == LoginStep::SendLogin
        }),
{
    lemma_split_lines_rest(st.line_buf + text);
}

/// Auto-login only moves forward: a read leaves the step as it was or moves
/// it one step on; once done, nothing is sent.
pub proof fn law_login_moves_forward(
    st: LinkModel,
    text: Seq<char>,
    login: Option<(Seq<char>, Option<Seq<char>>)>,
    now_ms: u64,
)
    ensures
        ({
            let (m, r) = spec_on_server_text(st, text, login, now_ms);
            &&& st.login_step == LoginStep::Done ==> m.login_step == LoginStep::Done && r.send is None
            &&& st.login_step == LoginStep::SendPassword ==> m.login_step != LoginStep::SendLogin
            &&& r.send is Some ==> m.login_step != st.login_step
        }),
{
}

} // verus!
