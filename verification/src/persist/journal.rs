//! Append-only recovery journal framing.
//!
//! Unsaved work is captured as length-and-CRC framed records. Recovery replays the frames and keeps
//! the LAST fully valid one; a torn final write (partial header, partial payload or a bad CRC) is
//! discarded and the prior valid record stands.
//!
//! Frame: `[u32 len LE][u32 crc32 LE][payload]`, with the CRC taken over the payload.
use vstd::prelude::*;

verus! {

/// The size of a frame header: a `u32` length and a `u32` CRC.
pub const HEADER: usize = 8;

/// One step of the reflected CRC-32 polynomial division.
pub open spec fn crc_step(c: u32) -> u32 {
    if c & 1 != 0 {
        0xEDB8_8320u32 ^ (c >> 1u32)
    } else {
        c >> 1u32
    }
}

/// `k` steps of [`crc_step`] from `c`; the table entry for index `n` is `crc_steps(n, 8)`.
pub open spec fn crc_steps(c: u32, k: nat) -> u32
    decreases k,
{
    if k == 0 {
        c
    } else {
        crc_step(crc_steps(c, (k - 1) as nat))
    }
}

/// The register update of one byte: the table entry for the low byte of `c ^ b`, folded into
/// `c >> 8`.
pub open spec fn crc_feed(c: u32, b: u8) -> u32 {
    crc_steps((c ^ (b as u32)) & 0xFFu32, 8) ^ (c >> 8u32)
}

/// The CRC register after feeding `bytes`, starting from all ones.
pub open spec fn crc_register(bytes: Seq<u8>) -> u32
    decreases bytes.len(),
{
    if bytes.len() == 0 {
        0xFFFF_FFFFu32
    } else {
        crc_feed(crc_register(bytes.drop_last()), bytes.last())
    }
}

/// The standard CRC-32 (IEEE 802.3) of `bytes`.
pub open spec fn crc32_of(bytes: Seq<u8>) -> u32 {
    crc_register(bytes) ^ 0xFFFF_FFFFu32
}

/// The four little-endian bytes of `x`.
pub open spec fn le32(x: u32) -> Seq<u8> {
    seq![(x & 0xFFu32) as u8, ((x >> 8u32) & 0xFFu32) as u8, ((x >> 16u32) & 0xFFu32) as u8, ((x >> 24u32) & 0xFFu32) as u8]
}

/// The little-endian `u32` stored at `raw[i..i + 4]`.
pub open spec fn read_le32(raw: Seq<u8>, i: int) -> u32 {
    (raw[i] as u32) | ((raw[i + 1] as u32) << 8u32) | ((raw[i + 2] as u32) << 16u32) | ((raw[i + 3] as u32) << 24u32)
}

/// The framed record for `payload` (its length is stored modulo 2^32).
pub open spec fn framed(payload: Seq<u8>) -> Seq<u8> {
    le32(payload.len() as u32) + le32(crc32_of(payload)) + payload
}

/// The payload of the last valid frame from offset `i` on, given the last valid payload before it.
pub open spec fn replay_from(raw: Seq<u8>, i: nat, last: Option<Seq<u8>>) -> Option<Seq<u8>>
    decreases raw.len() - i,
{
    if i + 8 > raw.len() {
        last
    } else {
        let len = read_le32(raw, i as int);
        let want = read_le32(raw, i + 4int);
        let end = i + 8 + len;
        if end > raw.len() {
            last
        } else {
            let payload = raw.subrange(i + 8int, end as int);
            if crc32_of(payload) != want {
                last
            } else {
                replay_from(raw, end as nat, Some(payload))
            }
        }
    }
}

/// The payload [`replay_bytes`] recovers from a raw journal.
pub open spec fn replayed(raw: Seq<u8>) -> Option<Seq<u8>> {
    replay_from(raw, 0, None)
}

/// A journal made of the frames of `payloads`, in order.
pub open spec fn journal_of(payloads: Seq<Seq<u8>>) -> Seq<u8>
    decreases payloads.len(),
{
    if payloads.len() == 0 {
        seq![]
    } else {
        journal_of(payloads.drop_last()) + framed(payloads.last())
    }
}

/// One step of the table-driven CRC: the table entry for `(crc ^ b) & 0xFF` folded into `crc >> 8`.
fn crc_update(crc: u32, b: u8) -> (r: u32)
    ensures
        r == crc_feed(crc, b),
{
    let mut c = (crc ^ (b as u32)) & 0xFF;
    let mut k: usize = 0;
    while k < 8
        invariant
            k <= 8,
            c == crc_steps((crc ^ (b as u32)) & 0xFFu32, k as nat),
        decreases 8 - k,
    {
        c = if c & 1 != 0 {
            0xEDB8_8320 ^ (c >> 1)
        } else {
            c >> 1
        };
        k += 1;
    }
    c ^ (crc >> 8)
}

/// Standard CRC-32 (IEEE 802.3) of `bytes`.
pub fn crc32(bytes: &[u8]) -> (r: u32)
    ensures
        r == crc32_of(bytes@),
{
    let mut crc: u32 = 0xFFFF_FFFF;
    let mut i: usize = 0;
    while i < bytes.len()
        invariant
            i <= bytes@.len(),
            crc == crc_register(bytes@.take(i as int)),
        decreases bytes.len() - i,
    {
        assert(bytes@.take(i + 1).drop_last() =~= bytes@.take(i as int));
        crc = crc_update(crc, bytes[i]);
        i += 1;
    }
    assert(bytes@.take(bytes@.len() as int) =~= bytes@);
    crc ^ 0xFFFF_FFFF
}

/// Append the little-endian bytes of `x` to `out`.
fn push_le32(out: &mut Vec<u8>, x: u32)
    ensures
        final(out)@ == old(out)@ + le32(x),
{
    out.push((x & 0xFF) as u8);
    out.push(((x >> 8) & 0xFF) as u8);
    out.push(((x >> 16) & 0xFF) as u8);
    out.push(((x >> 24) & 0xFF) as u8);
    assert(out@ =~= old(out)@ + le32(x));
}

/// Encode one framed record.
pub fn frame(payload: &[u8]) -> (out: Vec<u8>)
    ensures
        out@ == framed(payload@),
{
    let mut out: Vec<u8> = Vec::new();
    push_le32(&mut out, payload.len() as u32);
    push_le32(&mut out, crc32(payload));
    let ghost head = out@;
    let mut i: usize = 0;
    while i < payload.len()
        invariant
            i <= payload@.len(),
            out@ == head + payload@.take(i as int),
        decreases payload.len() - i,
    {
        out.push(payload[i]);
        assert(out@ =~= head + payload@.take(i + 1));
        i += 1;
    }
    assert(payload@.take(payload@.len() as int) =~= payload@);
    assert(head =~= le32(payload@.len() as u32) + le32(crc32_of(payload@)));
    out
}

/// The little-endian `u32` stored at `raw[i..i + 4]`.
fn get_le32(raw: &[u8], i: usize) -> (r: u32)
    requires
        i + 4 <= raw@.len(),
    ensures
        r == read_le32(raw@, i as int),
{
    (raw[i] as u32) | ((raw[i + 1] as u32) << 8) | ((raw[i + 2] as u32) << 16) | ((raw[i + 3] as u32) << 24)
}

/// The payload of the last VALID frame in a raw journal, or `None` if there is no intact record.
/// Stops at the first torn/corrupt frame, so a crash mid-append costs at most the final record.
pub fn replay_bytes(raw: &[u8]) -> (r: Option<Vec<u8>>)
    ensures
        r matches Some(v) ==> replayed(raw@) == Some(v@),
        r is None ==> replayed(raw@) is None,
{
    let mut last: Option<Vec<u8>> = None;
    let ghost mut last_view: Option<Seq<u8>> = None;
    let mut i: usize = 0;
    let len = raw.len();
    loop
        invariant
            len == raw@.len(),
            i <= len,
            last matches Some(v) ==> last_view == Some(v@),
            last is None ==> last_view is None,
            replay_from(raw@, i as nat, last_view) == replayed(raw@),
        decreases len - i,
    {
        if len - i < HEADER {
            return last;
        }
        let plen = get_le32(raw, i) as usize;
        let want = get_le32(raw, i + 4);
        let start = i + HEADER;
        let end = match start.checked_add(plen) {
            Some(e) if e <= len => e,
            _ => {
                return last;
            },
        };
        let mut payload: Vec<u8> = Vec::new();
        let mut k = start;
        while k < end
            invariant
                start <= k <= end,
                end <= len,
                len == raw@.len(),
                payload@ == raw@.subrange(start as int, k as int),
            decreases end - k,
        {
            payload.push(raw[k]);
            assert(payload@ =~= raw@.subrange(start as int, k + 1));
            k += 1;
        }
        if crc32(payload.as_slice()) != want {
            return last;
        }
        proof {
            last_view = Some(payload@);
        }
        last = Some(payload);
        i = end;
    }
}


/// Reading back the little-endian bytes of `x` gives `x`.
proof fn lemma_le32_roundtrip(x: u32)
    ensures
        read_le32(le32(x), 0) == x,
{
    let s = le32(x);
    let b0 = (x & 0xFFu32) as u8;
    let b1 = ((x >> 8u32) & 0xFFu32) as u8;
    let b2 = ((x >> 16u32) & 0xFFu32) as u8;
    let b3 = ((x >> 24u32) & 0xFFu32) as u8;
    assert(s[0] == b0 && s[1] == b1 && s[2] == b2 && s[3] == b3);
    assert((b0 as u32) | ((b1 as u32) << 8u32) | ((b2 as u32) << 16u32) | ((b3 as u32) << 24u32) == x)
        by (bit_vector)
        requires
            b0 == (x & 0xFFu32) as u8,
            b1 == ((x >> 8u32) & 0xFFu32) as u8,
            b2 == ((x >> 16u32) & 0xFFu32) as u8,
            b3 == ((x >> 24u32) & 0xFFu32) as u8,
    ;
}

/// `read_le32` only looks at the four bytes it reads.
proof fn lemma_read_le32_window(raw: Seq<u8>, i: int, w: Seq<u8>)
    requires
        0 <= i,
        i + 4 <= raw.len(),
        w.len() == 4,
        raw.subrange(i, i + 4) == w,
    ensures
        read_le32(raw, i) == read_le32(w, 0),
{
    assert(raw[i] == raw.subrange(i, i + 4)[0]);
    assert(raw[i + 1] == raw.subrange(i, i + 4)[1]);
    assert(raw[i + 2] == raw.subrange(i, i + 4)[2]);
    assert(raw[i + 3] == raw.subrange(i, i + 4)[3]);
}

/// An intact frame for `p` at offset `i` is accepted, and replay moves past it with `p` as the
/// latest payload.
proof fn lemma_replay_frame(raw: Seq<u8>, i: nat, p: Seq<u8>, last: Option<Seq<u8>>)
    requires
        p.len() <= u32::MAX,
        i + framed(p).len() <= raw.len(),
        raw.subrange(i as int, i as int + framed(p).len()) == framed(p),
    ensures
        replay_from(raw, i, last) == replay_from(raw, (i + framed(p).len()) as nat, Some(p)),
{
    let f = framed(p);
    let w = raw.subrange(i as int, i as int + f.len());
    lemma_le32_roundtrip(p.len() as u32);
    lemma_le32_roundtrip(crc32_of(p));
    assert(raw.subrange(i as int, i as int + 4) =~= w.subrange(0, 4));
    assert(f.subrange(0, 4) =~= le32(p.len() as u32));
    lemma_read_le32_window(raw, i as int, le32(p.len() as u32));
    assert(raw.subrange(i as int + 4, i as int + 8) =~= w.subrange(4, 8));
    assert(f.subrange(4, 8) =~= le32(crc32_of(p)));
    lemma_read_le32_window(raw, i as int + 4, le32(crc32_of(p)));
    assert(raw.subrange(i as int + 8, i as int + 8 + p.len()) =~= w.subrange(8, 8 + p.len() as int));
    assert(f.subrange(8, 8 + p.len() as int) =~= p);
}

/// A strict prefix of a frame at the end of the journal is ignored.
proof fn lemma_replay_torn(raw: Seq<u8>, i: nat, q: Seq<u8>, k: nat, last: Option<Seq<u8>>)
    requires
        q.len() <= u32::MAX,
        k < framed(q).len(),
        raw.len() == i + k,
        raw.subrange(i as int, raw.len() as int) == framed(q).take(k as int),
    ensures
        replay_from(raw, i, last) == last,
{
    if i + 8 <= raw.len() {
        let f = framed(q);
        let w = raw.subrange(i as int, raw.len() as int);
        lemma_le32_roundtrip(q.len() as u32);
        assert(raw.subrange(i as int, i as int + 4) =~= w.subrange(0, 4));
        assert(f.take(k as int).subrange(0, 4) =~= le32(q.len() as u32));
        lemma_read_le32_window(raw, i as int, le32(q.len() as u32));
    }
}

/// Replay walks across a whole sequence of intact frames.
proof fn lemma_replay_journal(raw: Seq<u8>, i: nat, ps: Seq<Seq<u8>>, last: Option<Seq<u8>>)
    requires
        forall|j: int| 0 <= j < ps.len() ==> (#[trigger] ps[j]).len() <= u32::MAX,
        i + journal_of(ps).len() <= raw.len(),
        raw.subrange(i as int, i as int + journal_of(ps).len()) == journal_of(ps),
    ensures
        replay_from(raw, i, last) == replay_from(
            raw,
            (i + journal_of(ps).len()) as nat,
            if ps.len() == 0 { last } else { Some(ps.last()) },
        ),
    decreases ps.len(),
{
    if ps.len() > 0 {
        let init = ps.drop_last();
        let p = ps.last();
        let ji = journal_of(init);
        let f = framed(p);
        assert(journal_of(ps) == ji + f);
        assert(raw.subrange(i as int, i as int + ji.len()) =~= ji) by {
            assert(raw.subrange(i as int, i as int + ji.len()) =~= raw.subrange(
                i as int,
                i as int + journal_of(ps).len(),
            ).subrange(0, ji.len() as int));
        }
        assert forall|j: int| 0 <= j < init.len() implies (#[trigger] init[j]).len() <= u32::MAX by {
            assert(init[j] == ps[j]);
        }
        lemma_replay_journal(raw, i, init, last);
        let mid = (i + ji.len()) as nat;
        assert(raw.subrange(mid as int, mid as int + f.len()) =~= f) by {
            assert(raw.subrange(mid as int, mid as int + f.len()) =~= raw.subrange(
                i as int,
                i as int + journal_of(ps).len(),
            ).subrange(ji.len() as int, (ji.len() + f.len()) as int));
        }
        assert(p == ps[ps.len() - 1]);
        lemma_replay_frame(raw, mid, p, if init.len() == 0 { last } else { Some(init.last()) });
    }
}

/// Replaying a journal made of intact frames, possibly followed by a torn (partially written)
/// frame, recovers the payload of the last intact frame, and nothing when there is none: a crash
/// mid-append costs at most the record being written.
pub proof fn law_replay_recovers_last_intact(ps: Seq<Seq<u8>>, q: Seq<u8>, k: nat)
    requires
        forall|j: int| 0 <= j < ps.len() ==> (#[trigger] ps[j]).len() <= u32::MAX,
        q.len() <= u32::MAX,
        k < framed(q).len(),
    ensures
        replayed(journal_of(ps) + framed(q).take(k as int)) == (if ps.len() == 0 {
            None
        } else {
            Some(ps.last())
        }),
{
    let j = journal_of(ps);
    let raw = j + framed(q).take(k as int);
    assert(raw.subrange(0, j.len() as int) =~= j);
    lemma_replay_journal(raw, 0, ps, None);
    assert(raw.subrange(j.len() as int, raw.len() as int) =~= framed(q).take(k as int));
    lemma_replay_torn(raw, j.len(), q, k, if ps.len() == 0 { None } else { Some(ps.last()) });
}

/// One CRC step loses nothing: its top bit tells the low bit it shifted out.
proof fn lemma_crc_step_injective(a: u32, b: u32)
    by (bit_vector)
    requires
        crc_step(a) == crc_step(b),
    ensures
        a == b,
{
}

/// One CRC step is linear over XOR.
proof fn lemma_crc_step_linear(a: u32, b: u32)
    by (bit_vector)
    ensures
        crc_step(a ^ b) == crc_step(a) ^ crc_step(b),
{
}

/// `k` CRC steps are injective and linear over XOR.
proof fn lemma_crc_steps(a: u32, b: u32, k: nat)
    ensures
        crc_steps(a ^ b, k) == crc_steps(a, k) ^ crc_steps(b, k),
        crc_steps(a, k) == crc_steps(b, k) ==> a == b,
    decreases k,
{
    if k > 0 {
        lemma_crc_steps(a, b, (k - 1) as nat);
        lemma_crc_step_linear(crc_steps(a, (k - 1) as nat), crc_steps(b, (k - 1) as nat));
        if crc_steps(a, k) == crc_steps(b, k) {
            lemma_crc_step_injective(crc_steps(a, (k - 1) as nat), crc_steps(b, (k - 1) as nat));
        }
    }
}

/// Every nonzero table entry index leaves its mark in the entry's top byte.
proof fn lemma_crc_table_top(y: u32)
    requires
        0 < y < 256,
    ensures
        crc_steps(y, 8) >> 24u32 != 0,
{
    reveal_with_fuel(crc_steps, 9);
    let s1 = crc_step(y);
    let s2 = crc_step(s1);
    let s3 = crc_step(s2);
    let s4 = crc_step(s3);
    let s5 = crc_step(s4);
    let s6 = crc_step(s5);
    let s7 = crc_step(s6);
    let s8 = crc_step(s7);
    assert(crc_steps(y, 8) == s8);
    assert(s8 >> 24u32 != 0) by (bit_vector)
        requires
            0 < y < 256,
            s1 == crc_step(y),
            s2 == crc_step(s1),
            s3 == crc_step(s2),
            s4 == crc_step(s3),
            s5 == crc_step(s4),
            s6 == crc_step(s5),
            s7 == crc_step(s6),
            s8 == crc_step(s7),
    ;
}

/// Feeding two different bytes into the same register gives different registers.
proof fn lemma_feed_byte_injective(c: u32, b1: u8, b2: u8)
    requires
        b1 != b2,
    ensures
        crc_feed(c, b1) != crc_feed(c, b2),
{
    let x1 = (c ^ (b1 as u32)) & 0xFFu32;
    let x2 = (c ^ (b2 as u32)) & 0xFFu32;
    assert(x1 != x2) by (bit_vector)
        requires
            b1 != b2,
            x1 == (c ^ (b1 as u32)) & 0xFFu32,
            x2 == (c ^ (b2 as u32)) & 0xFFu32,
    ;
    lemma_crc_steps(x1, x2, 8);
    let t1 = crc_steps(x1, 8);
    let t2 = crc_steps(x2, 8);
    assert(t1 ^ (c >> 8u32) != t2 ^ (c >> 8u32)) by (bit_vector)
        requires
            t1 != t2,
    ;
}

/// Feeding the same byte into two different registers gives different registers.
proof fn lemma_feed_register_injective(c1: u32, c2: u32, b: u8)
    requires
        c1 != c2,
    ensures
        crc_feed(c1, b) != crc_feed(c2, b),
{
    let x1 = (c1 ^ (b as u32)) & 0xFFu32;
    let x2 = (c2 ^ (b as u32)) & 0xFFu32;
    let d = c1 ^ c2;
    let y = d & 0xFFu32;
    assert(x1 ^ x2 == y) by (bit_vector)
        requires
            x1 == (c1 ^ (b as u32)) & 0xFFu32,
            x2 == (c2 ^ (b as u32)) & 0xFFu32,
            d == c1 ^ c2,
            y == d & 0xFFu32,
    ;
    lemma_crc_steps(x1, x2, 8);
    let t1 = crc_steps(x1, 8);
    let t2 = crc_steps(x2, 8);
    let ty = crc_steps(y, 8);
    if crc_feed(c1, b) == crc_feed(c2, b) {
        assert(ty == d >> 8u32) by (bit_vector)
            requires
                t1 ^ (c1 >> 8u32) == t2 ^ (c2 >> 8u32),
                ty == t1 ^ t2,
                d == c1 ^ c2,
        ;
        if y == 0 {
            lemma_crc_steps(0, 0, 8);
            assert(0u32 ^ 0u32 == 0u32) by (bit_vector);
            assert(crc_steps(0, 8) ^ crc_steps(0, 8) == 0u32) by (bit_vector);
            assert(c1 == c2) by (bit_vector)
                requires
                    d == c1 ^ c2,
                    y == d & 0xFFu32,
                    y == 0,
                    ty == d >> 8u32,
                    ty == 0,
            ;
        } else {
            assert(y < 256) by (bit_vector)
                requires
                    y == d & 0xFFu32,
            ;
            lemma_crc_table_top(y);
            assert(false) by (bit_vector)
                requires
                    ty == d >> 8u32,
                    ty >> 24u32 != 0,
            ;
        }
    }
}

/// Registers that differ stay different while the same bytes are fed to both.
proof fn lemma_register_diverges(s1: Seq<u8>, s2: Seq<u8>, post: Seq<u8>)
    requires
        crc_register(s1) != crc_register(s2),
    ensures
        crc_register(s1 + post) != crc_register(s2 + post),
    decreases post.len(),
{
    if post.len() == 0 {
        assert(s1 + post =~= s1);
        assert(s2 + post =~= s2);
    } else {
        lemma_register_diverges(s1, s2, post.drop_last());
        assert((s1 + post).drop_last() =~= s1 + post.drop_last());
        assert((s2 + post).drop_last() =~= s2 + post.drop_last());
        assert((s1 + post).last() == post.last());
        assert((s2 + post).last() == post.last());
        lemma_feed_register_injective(crc_register(s1 + post.drop_last()), crc_register(s2 + post.drop_last()), post.last());
    }
}

/// Changing one byte of a payload changes its CRC-32.
proof fn lemma_crc_detects_one_byte(q: Seq<u8>, j: int, x: u8)
    requires
        0 <= j < q.len(),
        x != q[j],
    ensures
        crc32_of(q.update(j, x)) != crc32_of(q),
{
    let pre = q.take(j);
    let post = q.skip(j + 1);
    let a = pre.push(q[j]);
    let b = pre.push(x);
    assert(a.drop_last() =~= pre);
    assert(b.drop_last() =~= pre);
    lemma_feed_byte_injective(crc_register(pre), q[j], x);
    lemma_register_diverges(a, b, post);
    assert(a + post =~= q);
    assert(b + post =~= q.update(j, x));
    let r1 = crc_register(q);
    let r2 = crc_register(q.update(j, x));
    assert(r1 ^ 0xFFFF_FFFFu32 != r2 ^ 0xFFFF_FFFFu32) by (bit_vector)
        requires
            r1 != r2,
    ;
}

/// A frame whose payload has one changed byte is refused, and replay stops there.
proof fn lemma_replay_corrupt(raw: Seq<u8>, i: nat, q: Seq<u8>, j: int, x: u8, last: Option<Seq<u8>>)
    requires
        q.len() <= u32::MAX,
        8 <= j < framed(q).len(),
        x != framed(q)[j],
        i + framed(q).len() <= raw.len(),
        raw.subrange(i as int, i as int + framed(q).len()) == framed(q).update(j, x),
    ensures
        replay_from(raw, i, last) == last,
{
    let f = framed(q);
    let w = raw.subrange(i as int, i as int + f.len());
    lemma_le32_roundtrip(q.len() as u32);
    lemma_le32_roundtrip(crc32_of(q));
    assert(raw.subrange(i as int, i as int + 4) =~= w.subrange(0, 4));
    assert(w.subrange(0, 4) =~= le32(q.len() as u32));
    lemma_read_le32_window(raw, i as int, le32(q.len() as u32));
    assert(raw.subrange(i as int + 4, i as int + 8) =~= w.subrange(4, 8));
    assert(w.subrange(4, 8) =~= le32(crc32_of(q)));
    lemma_read_le32_window(raw, i as int + 4, le32(crc32_of(q)));
    let payload = raw.subrange(i as int + 8, i as int + 8 + q.len());
    assert(f.len() == 8 + q.len());
    assert forall|k: int| 0 <= k < q.len() implies #[trigger] payload[k] == q.update(j - 8, x)[k] by {
        assert(payload[k] == w[8 + k]);
        assert(f[8 + k] == q[k]);
    }
    assert(payload =~= q.update(j - 8, x));
    lemma_crc_detects_one_byte(q, j - 8, x);
}

/// Law: a frame with one changed payload byte fails its CRC check, so replay keeps the last
/// record before it and ignores everything after it, intact frames included.
pub proof fn law_replay_stops_at_corrupt_frame(ps: Seq<Seq<u8>>, q: Seq<u8>, j: int, x: u8, tail: Seq<u8>)
    requires
        forall|k: int| 0 <= k < ps.len() ==> (#[trigger] ps[k]).len() <= u32::MAX,
        q.len() <= u32::MAX,
        8 <= j < framed(q).len(),
        x != framed(q)[j],
    ensures
        replayed(journal_of(ps) + framed(q).update(j, x) + tail) == (if ps.len() == 0 {
            None
        } else {
            Some(ps.last())
        }),
{
    let jn = journal_of(ps);
    let bad = framed(q).update(j, x);
    let raw = jn + bad + tail;
    assert(raw.subrange(0, jn.len() as int) =~= jn);
    lemma_replay_journal(raw, 0, ps, None);
    assert(raw.subrange(jn.len() as int, (jn.len() + bad.len()) as int) =~= bad);
    lemma_replay_corrupt(raw, jn.len(), q, j, x, if ps.len() == 0 { None } else { Some(ps.last()) });
}

/// Replaying a journal made only of intact frames recovers the last payload written.
pub proof fn law_replay_recovers_last_write(ps: Seq<Seq<u8>>)
    requires
        forall|j: int| 0 <= j < ps.len() ==> (#[trigger] ps[j]).len() <= u32::MAX,
    ensures
        replayed(journal_of(ps)) == (if ps.len() == 0 { None } else { Some(ps.last()) }),
{
    let q: Seq<u8> = seq![];
    law_replay_recovers_last_intact(ps, q, 0);
    assert(journal_of(ps) + framed(q).take(0) =~= journal_of(ps));
}

/// The last component of a path, as `Path::file_name` finds it (none for a path ending in `..`
/// or for the root).
pub uninterp spec fn path_file_name(p: Seq<char>) -> Option<Seq<char>>;

/// A path with its last component replaced, as `Path::with_file_name` builds it.
pub uninterp spec fn path_with_file_name(p: Seq<char>, name: Seq<char>) -> Seq<char>;

/// The part of `p` after its last `/` (all of `p` when it has none).
pub open spec fn last_component(p: Seq<char>) -> Seq<char>
    decreases p.len(),
{
    if p.len() == 0 || p.last() == '/' {
        seq![]
    } else {
        last_component(p.drop_last()).push(p.last())
    }
}

/// The part of `p` up to and including its last `/` (empty when it has none).
pub open spec fn dir_prefix(p: Seq<char>) -> Seq<char> {
    p.take(p.len() - last_component(p).len())
}

/// A normal path component: not empty, without `/`, and neither `.` nor `..`.
pub open spec fn normal_component(n: Seq<char>) -> bool {
    n.len() > 0 && !n.contains('/') && n != "."@ && n != ".."@
}

/// A directory written plainly: normal components joined by single `/`s, possibly rooted, and
/// not ending in `/` (the root itself is the empty text).
pub open spec fn plain_dir(d: Seq<char>) -> bool {
    &&& d.len() > 0 ==> d.last() != '/'
    &&& forall|i: int| 0 <= i < d.len() - 1 ==> !(#[trigger] d[i] == '/' && d[i + 1] == '/')
    &&& forall|i: int|
        0 <= i < d.len() && #[trigger] d[i] == '.' && (i == 0 || d[i - 1] == '/') ==> !(i + 1 == d.len()
            || d[i + 1] == '/') && !(i + 1 < d.len() && d[i + 1] == '.' && (i + 2 == d.len() || d[i + 2] == '/'))
}

/// The text before a last component that `Path::with_file_name` keeps as it is: nothing, or a
/// plain directory and one `/`.
pub open spec fn plain_prefix(q: Seq<char>) -> bool {
    q.len() == 0 || (q.last() == '/' && plain_dir(q.drop_last()))
}

/// A path with no last component: the root (nothing but `/`s), `..`, or one ending in `/..`.
pub open spec fn ends_without_name(p: Seq<char>) -> bool {
    ||| (p.len() > 0 && forall|i: int| 0 <= i < p.len() ==> #[trigger] p[i] == '/')
    ||| p == ".."@
    ||| (p.len() >= 3 && p.skip(p.len() - 3) == "/.."@)
}

/// The last component of `p` as `Path::file_name` finds it: the text after the last `/` when that
/// is a normal component, none for the root or a path ending in `..`, and otherwise (trailing
/// `/`, a final `.`) as `path_file_name` names it.
pub open spec fn file_name(p: Seq<char>) -> Option<Seq<char>> {
    if normal_component(last_component(p)) {
        Some(last_component(p))
    } else if ends_without_name(p) {
        None
    } else {
        path_file_name(p)
    }
}

/// Whether replacing the last component of `p` by `name` keeps the text before it: the last
/// component is normal, the text before it plain, and `name` a non-empty text without `/`.
pub open spec fn keeps_prefix(p: Seq<char>, name: Seq<char>) -> bool {
    normal_component(last_component(p)) && plain_prefix(dir_prefix(p)) && name.len() > 0 && !name.contains('/')
}

/// `p` with its last component replaced by `name`, as `Path::with_file_name` builds it: when the
/// last component is normal, the text before it plain and `name` a non-empty text without `/`,
/// that text followed by `name`; otherwise as `path_with_file_name` names it.
pub open spec fn replaced_file_name(p: Seq<char>, name: Seq<char>) -> Seq<char> {
    if keeps_prefix(p, name) {
        dir_prefix(p) + name
    } else {
        path_with_file_name(p, name)
    }
}

/// `Path::file_name` on a path given as text (Unix paths). Its documentation gives the last
/// component when it is a normal name and none for the root or a path ending in `..`; the
/// remaining cases (a trailing `/`, a final `.`) are left to the name `path_file_name`.
#[verifier::external_body]
pub(crate) fn file_name_of(p: &str) -> (r: Option<String>)
    ensures
        normal_component(last_component(p@)) ==> r is Some,
        !normal_component(last_component(p@)) && ends_without_name(p@) ==> r is None,
        r matches Some(n) ==> (if normal_component(last_component(p@)) {
            n@ == last_component(p@)
        } else {
            path_file_name(p@) == Some(n@)
        }),
        r is None ==> (ends_without_name(p@) || path_file_name(p@) is None),
{
    std::path::Path::new(p).file_name().map(|n| n.to_string_lossy().into_owned())
}

/// `Path::with_file_name` on a path given as text (Unix paths): `set_file_name` pops the last
/// component back to the parent and pushes `name`. Stated where the parent is plainly the text
/// before the last component (see `replaced_file_name`); other cases are left to the name
/// `path_with_file_name`.
#[verifier::external_body]
pub(crate) fn with_file_name(p: &str, name: &str) -> (r: String)
    ensures
        keeps_prefix(p@, name@) ==> r@ == dir_prefix(p@) + name@,
        !keeps_prefix(p@, name@) ==> r@ == path_with_file_name(p@, name@),
{
    std::path::Path::new(p).with_file_name(name).to_string_lossy().into_owned()
}

/// The journal of a document: beside it, named after it with `.ruse-journal` appended; an
/// unnamed buffer's journal is `.ruse-journal`.
pub open spec fn journal_path_of(doc: Option<Seq<char>>) -> Seq<char> {
    match doc {
        Some(p) => {
            let name = match file_name(p) {
                Some(n) => n,
                None => Seq::empty(),
            };
            replaced_file_name(p, name + ".ruse-journal"@)
        },
        None => ".ruse-journal"@,
    }
}

/// What a document's journal name appends to the document's name.
pub fn journal_suffix() -> (r: &'static str)
    ensures
        r@ == ".ruse-journal"@,
{
    ".ruse-journal"
}

/// The journal path for a document (see `journal_path_of`).
pub fn journal_path(doc: Option<&str>) -> (r: String)
    ensures
        r@ == journal_path_of(match doc {
            Some(p) => Some(p@),
            None => None,
        }),
{
    match doc {
        Some(p) => {
            let mut name = match file_name_of(p) {
                Some(n) => n,
                None => String::new(),
            };
            name.append(".ruse-journal");
            with_file_name(p, name.as_str())
        },
        None => crate::text::owned(".ruse-journal"),
    }
}


/// A path is the text before its last component followed by that component.
proof fn lemma_last_component(p: Seq<char>)
    ensures
        last_component(p).len() <= p.len(),
        p == dir_prefix(p) + last_component(p),
    decreases p.len(),
{
    if p.len() > 0 && p.last() != '/' {
        lemma_last_component(p.drop_last());
        assert(p =~= p.drop_last().push(p.last()));
        assert(dir_prefix(p) =~= dir_prefix(p.drop_last()));
    }
    assert(p =~= dir_prefix(p) + last_component(p));
}

/// A name without `/` followed by a suffix without `/` has no `/`.
proof fn lemma_no_slash_concat(a: Seq<char>, b: Seq<char>)
    requires
        !a.contains('/'),
        !b.contains('/'),
    ensures
        !(a + b).contains('/'),
{
    assert forall|i: int| 0 <= i < (a + b).len() implies (a + b)[i] != '/' by {
        if i < a.len() {
            assert((a + b)[i] == a[i]);
        } else {
            assert((a + b)[i] == b[i - a.len()]);
        }
    }
}

/// Naming a file after a plainly written path by appending `suffix` (non-empty, without `/`)
/// puts it beside the path.
pub(crate) proof fn lemma_sibling_name(p: Seq<char>, suffix: Seq<char>)
    requires
        normal_component(last_component(p)),
        plain_prefix(dir_prefix(p)),
        suffix.len() > 0,
        !suffix.contains('/'),
    ensures
        ({
            let name = match file_name(p) {
                Some(n) => n,
                None => Seq::empty(),
            };
            replaced_file_name(p, name + suffix) == p + suffix
        }),
{
    lemma_last_component(p);
    lemma_no_slash_concat(last_component(p), suffix);
    assert(dir_prefix(p) + (last_component(p) + suffix) =~= p + suffix);
}

/// Law: the journal of a plainly named document sits beside it, named after it with
/// `.ruse-journal` appended.
pub proof fn law_journal_beside_document(p: Seq<char>)
    requires
        normal_component(last_component(p)),
        plain_prefix(dir_prefix(p)),
    ensures
        journal_path_of(Some(p)) == p + ".ruse-journal"@,
{
    reveal_strlit(".ruse-journal");
    assert(!".ruse-journal"@.contains('/')) by {
        assert forall|i: int| 0 <= i < ".ruse-journal"@.len() implies ".ruse-journal"@[i] != '/' by {}
    }
    lemma_sibling_name(p, ".ruse-journal"@);
}

} // verus!
