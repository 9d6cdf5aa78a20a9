//! Terminal graphics: reading a terminal's answer to the Kitty graphics
//! query and the DA1 (primary device attributes) query, and framing a PNG
//! as Kitty graphics escape sequences.

use vstd::prelude::*;

use base64::Engine as _;

verus! {

/// Graphics protocols the terminal said it supports.
#[derive(Debug, Clone, Copy, PartialEq, Eq, Structural)]
pub struct TerminalSupport {
    pub sixel: bool,
    pub kitty: bool,
}

/// `pat` occurs in `s` at position `i`.
pub open spec fn occurs_at(s: Seq<u8>, pat: Seq<u8>, i: int) -> bool {
    0 <= i && i + pat.len() <= s.len() && s.subrange(i, i + pat.len()) == pat
}

/// Position of the first occurrence of `pat` in `s` at or after `i`, if any.
pub open spec fn find_from(s: Seq<u8>, pat: Seq<u8>, i: int) -> Option<int>
    decreases s.len() + 1 - i,
{
    if i < 0 || i + pat.len() > s.len() {
        None
    } else if occurs_at(s, pat, i) {
        Some(i)
    } else {
        find_from(s, pat, i + 1)
    }
}

/// Start of a Kitty graphics reply, `ESC _ G`.
pub open spec fn kitty_marker() -> Seq<u8> {
    seq![0x1bu8, 0x5f, 0x47]
}

/// Start of a DA1 reply, `ESC [ ?`.
pub open spec fn da1_marker() -> Seq<u8> {
    seq![0x1bu8, 0x5b, 0x3f]
}

/// One of the `;`-separated fields of `inner` is exactly `4`.
pub open spec fn has_field_4(inner: Seq<u8>) -> bool {
    exists|i: int|
        0 <= i < inner.len() && #[trigger] inner[i] == 0x34 && (i == 0 || inner[i - 1] == 0x3b) && (i
            == inner.len() - 1 || inner[i + 1] == 0x3b)
}

/// The DA1 parameters: the bytes between the first `ESC [ ?` and the next `c`.
pub open spec fn da1_params(s: Seq<u8>) -> Option<Seq<u8>> {
    match find_from(s, da1_marker(), 0) {
        None => None,
        Some(start) => {
            let rest = s.subrange(start + 3, s.len() as int);
            match find_from(rest, seq![0x63u8], 0) {
                None => None,
                Some(end) => Some(rest.subrange(0, end)),
            }
        },
    }
}

/// What a reply says: Kitty if it holds `ESC _ G` anywhere, Sixel if the
/// DA1 parameters list `4`.
pub open spec fn terminal_support_spec(reply: Seq<u8>) -> TerminalSupport {
    TerminalSupport {
        kitty: find_from(reply, kitty_marker(), 0) is Some,
        sixel: match da1_params(reply) {
            Some(p) => has_field_4(p),
            None => false,
        },
    }
}

proof fn lemma_find_from_some(s: Seq<u8>, pat: Seq<u8>, i: int)
    requires
        find_from(s, pat, i) is Some,
    ensures
        find_from(s, pat, i)->0 >= i,
        occurs_at(s, pat, find_from(s, pat, i)->0),
    decreases s.len() + 1 - i,
{
    if !(i < 0 || i + pat.len() > s.len()) && !occurs_at(s, pat, i) {
        lemma_find_from_some(s, pat, i + 1);
    }
}

fn occurs_at_exec(s: &[u8], pat: &[u8], i: usize) -> (b: bool)
    requires
        i + pat@.len() <= s@.len(),
    ensures
        b == occurs_at(s@, pat@, i as int),
{
    let n: usize = s.len();
    let mut j: usize = 0;
    while j < pat.len()
        invariant
            n == s@.len(),
            i + pat@.len() <= s@.len(),
            j <= pat@.len(),
            forall|k: int| 0 <= k < j ==> s@[i + k] == pat@[k],
        decreases pat@.len() - j,
    {
        if s[i + j] != pat[j] {
            assert(s@.subrange(i as int, i + pat@.len())[j as int] != pat@[j as int]);
            return false;
        }
        j = j + 1;
    }
    assert(s@.subrange(i as int, i + pat@.len()) =~= pat@);
    true
}

/// Position of the first occurrence of `pat` in `s`.
fn find_pattern(s: &[u8], pat: &[u8]) -> (r: Option<usize>)
    requires
        pat@.len() > 0,
    ensures
        match find_from(s@, pat@, 0) {
            Some(i) => r == Some(i as usize),
            None => r is None,
        },
{
    if pat.len() > s.len() {
        return None;
    }
    let n: usize = s.len();
    let last: usize = n - pat.len();
    let mut i: usize = 0;
    while i <= last
        invariant
            n == s@.len(),
            pat@.len() > 0,
            last == s@.len() - pat@.len(),
            i <= last + 1,
            find_from(s@, pat@, 0) == find_from(s@, pat@, i as int),
        decreases last + 1 - i,
    {
        if occurs_at_exec(s, pat, i) {
            return Some(i);
        }
        i = i + 1;
    }
    None
}

fn has_field_4_exec(s: &[u8], lo: usize, hi: usize) -> (b: bool)
    requires
        lo <= hi <= s@.len(),
    ensures
        b == has_field_4(s@.subrange(lo as int, hi as int)),
{
    let ghost inner = s@.subrange(lo as int, hi as int);
    let mut i: usize = lo;
    while i < hi
        invariant
            lo <= i <= hi <= s@.len(),
            inner == s@.subrange(lo as int, hi as int),
            forall|j: int|
                0 <= j < i - lo ==> !(#[trigger] inner[j] == 0x34 && (j == 0 || inner[j - 1] == 0x3b) && (j
                    == inner.len() - 1 || inner[j + 1] == 0x3b)),
        decreases hi - i,
    {
        if s[i] == 0x34 && (i == lo || s[i - 1] == 0x3b) && (i + 1 == hi || s[i + 1] == 0x3b) {
            assert(inner[i - lo] == 0x34);
            return true;
        }
        i = i + 1;
    }
    false
}

/// Reads the terminal's reply to the Kitty and DA1 queries.
pub fn terminal_support(reply: &[u8]) -> (t: TerminalSupport)
    ensures
        t == terminal_support_spec(reply@),
{
    let kitty_pat: Vec<u8> = vec![0x1b, 0x5f, 0x47];
    assert(kitty_pat@ =~= kitty_marker());
    let kitty: bool = find_pattern(reply, kitty_pat.as_slice()).is_some();
    let da1_pat: Vec<u8> = vec![0x1b, 0x5b, 0x3f];
    assert(da1_pat@ =~= da1_marker());
    let sixel: bool = match find_pattern(reply, da1_pat.as_slice()) {
        None => false,
        Some(start) => {
            proof {
                lemma_find_from_some(reply@, da1_marker(), 0);
            }
            assert(da1_marker().len() == 3);
            let rn: usize = reply.len();
            assert(start + 3 <= rn);
            let ghost rest = reply@.subrange(start + 3, reply@.len() as int);
            let mut end: usize = start + 3;
            while end < reply.len() && reply[end] != 0x63
                invariant
                    start + 3 <= end <= reply@.len(),
                    rest == reply@.subrange(start + 3, reply@.len() as int),
                    find_from(rest, seq![0x63u8], 0) == find_from(rest, seq![0x63u8], end - start - 3),
                decreases reply@.len() - end,
            {
                assert(!occurs_at(rest, seq![0x63u8], end - start - 3)) by {
                    assert(rest[end - start - 3] == reply@[end as int]);
                    if rest.subrange(end - start - 3, end - start - 2) == seq![0x63u8] {
                        assert(rest.subrange(end - start - 3, end - start - 2)[0] == rest[end - start - 3]);
                    }
                }
                end = end + 1;
            }
            if end == reply.len() {
                false
            } else {
                assert(occurs_at(rest, seq![0x63u8], end - start - 3)) by {
                    assert(rest.subrange(end - start - 3, end - start - 2) =~= seq![0x63u8]);
                }
                assert(rest.subrange(0, end - start - 3) =~= reply@.subrange(start + 3, end as int));
                has_field_4_exec(reply, start + 3, end)
            }
        },
    };
    TerminalSupport { sixel, kitty }
}

/// Which protocols to draw with, as `(kitty, sixel)`: Kitty when the
/// terminal has it or it is forced, unless Sixel is forced; Sixel when the
/// terminal has Sixel but not Kitty, or when it is forced.
pub fn graphics_choice(support: TerminalSupport, force_sixel: bool, force_kitty: bool) -> (r: (bool, bool))
    ensures
        r.0 == ((support.kitty || force_kitty) && !force_sixel),
        r.1 == ((support.sixel && !support.kitty) || force_sixel),
{
    ((support.kitty || force_kitty) && !force_sixel, (support.sixel && !support.kitty) || force_sixel)
}

/// Whether the bytes read so far end a DA1 reply: the last byte is `c` and
/// an `ESC [ ?` was seen.
pub fn da1_reply_complete(bytes: &[u8]) -> (b: bool)
    ensures
        b == (bytes@.len() > 0 && bytes@.last() == 0x63 && find_from(bytes@, da1_marker(), 0) is Some),
{
    if bytes.len() == 0 || bytes[bytes.len() - 1] != 0x63 {
        return false;
    }
    let da1_pat: Vec<u8> = vec![0x1b, 0x5b, 0x3f];
    assert(da1_pat@ =~= da1_marker());
    find_pattern(bytes, da1_pat.as_slice()).is_some()
}

/// The base64 digit for a 6-bit value `v`: `A-Z`, `a-z`, `0-9`, `+`, `/`.
pub open spec fn base64_digit(v: int) -> u8 {
    if v < 26 {
        (65 + v) as u8
    } else if v < 52 {
        (71 + v) as u8
    } else if v < 62 {
        (v - 4) as u8
    } else if v == 62 {
        43
    } else {
        47
    }
}

/// Standard base64 (RFC 4648 alphabet, `=` padding) of a byte string: each
/// group of three bytes becomes four digits, a final group of one or two
/// bytes becomes two or three digits and padding.
pub open spec fn base64_standard(data: Seq<u8>) -> Seq<u8>
    decreases data.len(),
{
    if data.len() == 0 {
        Seq::empty()
    } else if data.len() == 1 {
        let a = data[0] as int;
        seq![base64_digit(a / 4), base64_digit((a % 4) * 16), 61u8, 61u8]
    } else if data.len() == 2 {
        let a = data[0] as int;
        let b = data[1] as int;
        seq![base64_digit(a / 4), base64_digit((a % 4) * 16 + b / 16), base64_digit((b % 16) * 4), 61u8]
    } else {
        let a = data[0] as int;
        let b = data[1] as int;
        let c = data[2] as int;
        seq![
            base64_digit(a / 4),
            base64_digit((a % 4) * 16 + b / 16),
            base64_digit((b % 16) * 4 + c / 64),
            base64_digit(c % 64),
        ] + base64_standard(data.subrange(3, data.len() as int))
    }
}

/// Wraps `base64::engine::general_purpose::STANDARD.encode`: the result is
/// the standard, padded base64 text of the bytes.
#[verifier::external_body]
fn base64_encode(data: &[u8]) -> (r: Vec<u8>)
    ensures
        r@ == base64_standard(data@),
{
    base64::engine::general_purpose::STANDARD.encode(data).into_bytes()
}

/// Bytes of base64 payload per Kitty escape sequence.
pub const KITTY_CHUNK_SIZE: usize = 4096;

/// The header of a Kitty chunk: `ESC _ G a=T,f=100,m=<m>;` for the first
/// chunk, `ESC _ G m=<m>;` for the others.
pub open spec fn kitty_header(first: bool, more: bool) -> Seq<u8> {
    let m: u8 = if more { 0x31 } else { 0x30 };
    if first {
        seq![0x1bu8, 0x5f, 0x47, 0x61, 0x3d, 0x54, 0x2c, 0x66, 0x3d, 0x31, 0x30, 0x30, 0x2c, 0x6d, 0x3d, m, 0x3b]
    } else {
        seq![0x1bu8, 0x5f, 0x47, 0x6d, 0x3d, m, 0x3b]
    }
}

/// String terminator `ESC \`.
pub open spec fn kitty_terminator() -> Seq<u8> {
    seq![0x1bu8, 0x5c]
}

/// The encoded payload cut into chunks of at most 4096 bytes, each wrapped
/// in a Kitty escape sequence that says whether more follow.
pub open spec fn kitty_frames(enc: Seq<u8>, first: bool) -> Seq<u8>
    decreases enc.len(),
{
    if enc.len() == 0 {
        Seq::empty()
    } else {
        let n: int = if enc.len() < 4096 { enc.len() as int } else { 4096 };
        let rest = enc.subrange(n, enc.len() as int);
        kitty_header(first, rest.len() > 0) + enc.subrange(0, n) + kitty_terminator() + kitty_frames(
            rest,
            false,
        )
    }
}

/// Where chunk `k` of the framed payload starts: the first header is 17
/// bytes long when it is the opening one (7 otherwise), every later header
/// 7, every full chunk 4096 bytes, every terminator 2.
pub open spec fn kitty_chunk_start(k: int, first: bool) -> int {
    if k == 0 {
        0
    } else {
        (if first { 17int } else { 7int }) + 4098 + (k - 1) * 4105
    }
}

/// Chunk `k` of the framed payload, laid out byte for byte: its header says
/// `m=1` when more chunks follow and `m=0` on the last one (the opening
/// header also carries `a=T,f=100`), then come the chunk's bytes of the
/// encoded text and the terminator `ESC \`; the last chunk ends the output.
pub proof fn lemma_kitty_frames_layout(enc: Seq<u8>, first: bool, k: int)
    requires
        0 <= k,
        4096 * k < enc.len(),
    ensures
        ({
            let f = kitty_frames(enc, first);
            let p = kitty_chunk_start(k, first);
            let opening = k == 0 && first;
            let h: int = if opening { 17 } else { 7 };
            let l: int = if enc.len() - 4096 * k < 4096 { enc.len() - 4096 * k } else { 4096 };
            let m: u8 = if 4096 * (k + 1) < enc.len() { 0x31 } else { 0x30 };
            &&& p + h + l + 2 <= f.len()
            &&& f.subrange(p, p + h) == if opening {
                seq![0x1bu8, 0x5f, 0x47, 0x61, 0x3d, 0x54, 0x2c, 0x66, 0x3d, 0x31, 0x30, 0x30, 0x2c, 0x6d, 0x3d, m, 0x3b]
            } else {
                seq![0x1bu8, 0x5f, 0x47, 0x6d, 0x3d, m, 0x3b]
            }
            &&& f.subrange(p + h, p + h + l) == enc.subrange(4096 * k, 4096 * k + l)
            &&& f.subrange(p + h + l, p + h + l + 2) == seq![0x1bu8, 0x5c]
            &&& 4096 * (k + 1) >= enc.len() ==> f.len() == p + h + l + 2
        }),
    decreases k,
{
    let n: int = if enc.len() < 4096 { enc.len() as int } else { 4096 };
    let rest = enc.subrange(n, enc.len() as int);
    let hd = kitty_header(first, rest.len() > 0);
    let body = enc.subrange(0, n);
    let tail = kitty_frames(rest, false);
    let f = kitty_frames(enc, first);
    assert(f == hd + body + kitty_terminator() + tail);
    let h0: int = if first { 17 } else { 7 };
    assert(hd.len() == h0);
    if k == 0 {
        let m: u8 = if 4096 < enc.len() { 0x31 } else { 0x30 };
        assert(f.subrange(0, h0) =~= hd);
        if first {
            assert(hd =~= seq![0x1bu8, 0x5f, 0x47, 0x61, 0x3d, 0x54, 0x2c, 0x66, 0x3d, 0x31, 0x30, 0x30, 0x2c, 0x6d, 0x3d, m, 0x3b]);
        } else {
            assert(hd =~= seq![0x1bu8, 0x5f, 0x47, 0x6d, 0x3d, m, 0x3b]);
        }
        assert(f.subrange(h0, h0 + n) =~= body);
        assert(f.subrange(h0 + n, h0 + n + 2) =~= seq![0x1bu8, 0x5c]);
        if 4096 >= enc.len() {
            assert(rest.len() == 0);
            assert(tail.len() == 0);
        }
    } else {
        assert(n == 4096);
        lemma_kitty_frames_layout(rest, false, k - 1);
        let off = h0 + 4098;
        let p2 = kitty_chunk_start(k - 1, false);
        assert(p2 == (k - 1) * 4105);
        let l: int = if enc.len() - 4096 * k < 4096 { enc.len() - 4096 * k } else { 4096 };
        let h = 7int;
        assert(kitty_chunk_start(k, first) == off + p2);
        assert(f.subrange(off + p2, off + p2 + h) =~= tail.subrange(p2, p2 + h));
        assert(f.subrange(off + p2 + h, off + p2 + h + l) =~= tail.subrange(p2 + h, p2 + h + l));
        assert(f.subrange(off + p2 + h + l, off + p2 + h + l + 2) =~= tail.subrange(p2 + h + l, p2 + h + l + 2));
        assert(enc.subrange(4096 * k, 4096 * k + l) =~= rest.subrange(4096 * (k - 1), 4096 * (k - 1) + l));
    }
}

fn push_all(out: &mut Vec<u8>, s: &[u8], lo: usize, hi: usize)
    requires
        lo <= hi <= s@.len(),
    ensures
        final(out)@ == old(out)@ + s@.subrange(lo as int, hi as int),
{
    let mut i: usize = lo;
    while i < hi
        invariant
            lo <= i <= hi <= s@.len(),
            out@ == old(out)@ + s@.subrange(lo as int, i as int),
        decreases hi - i,
    {
        out.push(s[i]);
        i = i + 1;
        assert(out@ =~= old(out)@ + s@.subrange(lo as int, i as int));
    }
}

fn kitty_header_exec(first: bool, more: bool) -> (h: Vec<u8>)
    ensures
        h@ == kitty_header(first, more),
{
    let m: u8 = if more { 0x31 } else { 0x30 };
    let h: Vec<u8> = if first {
        vec![0x1b, 0x5f, 0x47, 0x61, 0x3d, 0x54, 0x2c, 0x66, 0x3d, 0x31, 0x30, 0x30, 0x2c, 0x6d, 0x3d, m, 0x3b]
    } else {
        vec![0x1b, 0x5f, 0x47, 0x6d, 0x3d, m, 0x3b]
    };
    assert(h@ =~= kitty_header(first, more));
    h
}

/// Everything to write to the terminal to show a PNG with the Kitty
/// graphics protocol: the framed base64 payload and a final newline.
pub fn kitty_payload(png: &[u8]) -> (out: Vec<u8>)
    ensures
        out@ == kitty_frames(base64_standard(png@), true) + seq![0x0au8],
{
    let enc: Vec<u8> = base64_encode(png);
    let mut out: Vec<u8> = Vec::new();
    let mut pos: usize = 0;
    let mut first: bool = true;
    assert(enc@.subrange(0, enc@.len() as int) =~= enc@);
    assert(out@ + kitty_frames(enc@, true) =~= kitty_frames(enc@, true));
    while pos < enc.len()
        invariant
            pos <= enc@.len(),
            out@ + kitty_frames(enc@.subrange(pos as int, enc@.len() as int), first) == kitty_frames(
                enc@,
                true,
            ),
        decreases enc@.len() - pos,
    {
        let ghost cur = enc@.subrange(pos as int, enc@.len() as int);
        let left: usize = enc.len() - pos;
        let n: usize = if left < KITTY_CHUNK_SIZE { left } else { KITTY_CHUNK_SIZE };
        let ghost rest = cur.subrange(n as int, cur.len() as int);
        assert(rest =~= enc@.subrange(pos + n, enc@.len() as int));
        assert(cur.subrange(0, n as int) =~= enc@.subrange(pos as int, pos + n));
        let ghost before = out@;
        let header: Vec<u8> = kitty_header_exec(first, pos + n < enc.len());
        push_all(&mut out, header.as_slice(), 0, header.len());
        assert(header@.subrange(0, header@.len() as int) =~= header@);
        push_all(&mut out, enc.as_slice(), pos, pos + n);
        out.push(0x1b);
        out.push(0x5c);
        assert(out@ =~= before + kitty_header(first, rest.len() > 0) + cur.subrange(0, n as int)
            + kitty_terminator());
        pos = pos + n;
        first = false;
    }
    assert(enc@.subrange(pos as int, enc@.len() as int) =~= Seq::<u8>::empty());
    assert(enc@.subrange(0, enc@.len() as int) =~= enc@);
    out.push(0x0a);
    out
}

} // verus!
