//! Repair of the size fields in a streamed RIFF/WAVE header.
use vstd::prelude::*;

verus! {

/// 2^32: sizes are stored modulo this in the 32-bit header fields.
pub open spec fn u32_span() -> nat {
    0x1_0000_0000
}

/// The four bytes "RIFF".
pub open spec fn riff_tag() -> Seq<u8> {
    seq![0x52u8, 0x49u8, 0x46u8, 0x46u8]
}

/// The four bytes "WAVE".
pub open spec fn wave_tag() -> Seq<u8> {
    seq![0x57u8, 0x41u8, 0x56u8, 0x45u8]
}

/// The four bytes "data".
pub open spec fn data_tag() -> Seq<u8> {
    seq![0x64u8, 0x61u8, 0x74u8, 0x61u8]
}

/// The little-endian 32-bit number stored at `pos`.
pub open spec fn le_u32_at(b: Seq<u8>, pos: int) -> nat {
    (b[pos] + 256 * b[pos + 1] + 65536 * b[pos + 2] + 16777216 * b[pos + 3]) as nat
}

/// The four little-endian bytes of `v` (taken modulo 2^32).
pub open spec fn le_bytes(v: nat) -> Seq<u8> {
    seq![
        (v % 256) as u8,
        ((v / 256) % 256) as u8,
        ((v / 65536) % 256) as u8,
        ((v / 16777216) % 256) as u8,
    ]
}

/// `b` with the four bytes at `pos` replaced by the little-endian form of `v`.
pub open spec fn with_u32_at(b: Seq<u8>, pos: int, v: nat) -> Seq<u8> {
    b.take(pos) + le_bytes(v) + b.skip(pos + 4)
}

/// `b` starts with a RIFF header of form WAVE.
pub open spec fn is_riff_wave(b: Seq<u8>) -> bool {
    b.len() >= 12 && b.subrange(0, 4) == riff_tag() && b.subrange(8, 12) == wave_tag()
}

/// Walking the chunks of `b` from `pos` (each an id, a 32-bit size and a body
/// padded to an even length): the position of the first chunk whose id is
/// "data", if one is reached before the end of the buffer.
pub open spec fn find_data_chunk(b: Seq<u8>, pos: nat) -> Option<nat>
    decreases b.len() - pos,
{
    if pos + 8 > b.len() {
        None
    } else if b.subrange(pos as int, (pos + 4) as int) == data_tag() {
        Some(pos)
    } else {
        let size = le_u32_at(b, (pos + 4) as int);
        let next = pos + 8 + size + size % 2;
        if next > b.len() {
            None
        } else {
            find_data_chunk(b, next)
        }
    }
}

/// The buffer after repair: for a RIFF/WAVE buffer, the RIFF size becomes the
/// buffer length less 8 and the size of the first "data" chunk becomes the
/// number of bytes after its header; any other buffer is left as it is.
pub open spec fn fixed_wav_header(b: Seq<u8>) -> Seq<u8> {
    if !is_riff_wave(b) {
        b
    } else {
        let b1 = with_u32_at(b, 4, ((b.len() - 8) as nat) % u32_span());
        match find_data_chunk(b, 12) {
            Some(p) => with_u32_at(b1, (p + 4) as int, ((b.len() - (p + 8)) as nat) % u32_span()),
            None => b1,
        }
    }
}

proof fn lemma_le_roundtrip(v: nat)
    requires
        v < u32_span(),
    ensures
        le_bytes(v)[0] + 256 * le_bytes(v)[1] + 65536 * le_bytes(v)[2] + 16777216 * le_bytes(v)[3]
            == v,
{
    let w = v as u32;
    assert((w % 256) + 256 * ((w / 256) % 256) + 65536 * ((w / 65536) % 256) + 16777216 * ((w
        / 16777216) % 256) == w) by (bit_vector);
}

proof fn lemma_with_u32_reads_back(b: Seq<u8>, pos: int, v: nat)
    requires
        0 <= pos,
        pos + 4 <= b.len(),
        v < u32_span(),
    ensures
        with_u32_at(b, pos, v).len() == b.len(),
        le_u32_at(with_u32_at(b, pos, v), pos) == v,
        forall|i: int|
            0 <= i < b.len() && !(pos <= i < pos + 4) ==> #[trigger] with_u32_at(b, pos, v)[i]
                == b[i],
        with_u32_at(b, pos, v).subrange(pos, pos + 4) == le_bytes(v),
{
    let c = with_u32_at(b, pos, v);
    lemma_le_roundtrip(v);
    assert(c[pos] == le_bytes(v)[0]);
    assert(c[pos + 1] == le_bytes(v)[1]);
    assert(c[pos + 2] == le_bytes(v)[2]);
    assert(c[pos + 3] == le_bytes(v)[3]);
    assert(c.subrange(pos, pos + 4) =~= le_bytes(v));
}

proof fn lemma_with_u32_unchanged(b: Seq<u8>, pos: int, v: nat)
    requires
        0 <= pos,
        pos + 4 <= b.len(),
        b.subrange(pos, pos + 4) == le_bytes(v),
    ensures
        with_u32_at(b, pos, v) == b,
{
    assert(with_u32_at(b, pos, v) =~= b) by {
        assert forall|i: int| pos <= i < pos + 4 implies #[trigger] b[i] == le_bytes(v)[i - pos] by {
            assert(b.subrange(pos, pos + 4)[i - pos] == b[i]);
        }
    }
}

proof fn lemma_find_bounds(b: Seq<u8>, q: nat)
    ensures
        find_data_chunk(b, q) matches Some(p) ==> q <= p && p + 8 <= b.len(),
    decreases b.len() - q,
{
    if q + 8 <= b.len() && b.subrange(q as int, (q + 4) as int) != data_tag() {
        let size = le_u32_at(b, (q + 4) as int);
        let next = q + 8 + size + size % 2;
        if next <= b.len() {
            lemma_find_bounds(b, next);
        }
    }
}

/// Two buffers of one length that agree from `q` on, except perhaps in the
/// size field of the data chunk that the walk over `b` finds, walk alike.
proof fn lemma_walk_alike(b: Seq<u8>, c: Seq<u8>, q: nat)
    requires
        b.len() == c.len(),
        forall|i: int|
            q <= i < b.len() && !(find_data_chunk(b, q) matches Some(p) && p + 4 <= i < p + 8)
                ==> #[trigger] b[i] == c[i],
    ensures
        find_data_chunk(c, q) == find_data_chunk(b, q),
    decreases b.len() - q,
{
    if q + 8 <= b.len() {
        lemma_find_bounds(b, q);
        if b.subrange(q as int, (q + 4) as int) == data_tag() {
            assert(c.subrange(q as int, (q + 4) as int) =~= b.subrange(q as int, (q + 4) as int));
        } else {
            assert(c.subrange(q as int, (q + 4) as int) =~= b.subrange(q as int, (q + 4) as int));
            let size = le_u32_at(b, (q + 4) as int);
            let next = q + 8 + size + size % 2;
            if let Some(p) = find_data_chunk(b, q) {
                lemma_find_bounds(b, next);
                assert(q + 8 <= p);
            }
            assert(b[(q + 4) as int] == c[(q + 4) as int]);
            assert(b[(q + 5) as int] == c[(q + 5) as int]);
            assert(b[(q + 6) as int] == c[(q + 6) as int]);
            assert(b[(q + 7) as int] == c[(q + 7) as int]);
            if next <= b.len() {
                lemma_walk_alike(b, c, next);
            }
        }
    }
}

/// After repair, the RIFF size field reads back as the buffer length less 8,
/// and the size field of the data chunk as the number of bytes after its
/// header (both modulo 2^32); the length never changes, and a buffer that is
/// not RIFF/WAVE is left as it was.
pub proof fn lemma_fixed_sizes_read_back(b: Seq<u8>)
    ensures
        fixed_wav_header(b).len() == b.len(),
        !is_riff_wave(b) ==> fixed_wav_header(b) == b,
        is_riff_wave(b) ==> le_u32_at(fixed_wav_header(b), 4) == ((b.len() - 8) as nat)
            % u32_span(),
        is_riff_wave(b) ==> (find_data_chunk(b, 12) matches Some(p) ==> le_u32_at(
            fixed_wav_header(b),
            (p + 4) as int,
        ) == ((b.len() - (p + 8)) as nat) % u32_span()),
{
    if is_riff_wave(b) {
        let r = ((b.len() - 8) as nat) % u32_span();
        let b1 = with_u32_at(b, 4, r);
        lemma_with_u32_reads_back(b, 4, r);
        lemma_find_bounds(b, 12);
        if let Some(p) = find_data_chunk(b, 12) {
            let d = ((b.len() - (p + 8)) as nat) % u32_span();
            lemma_with_u32_reads_back(b1, (p + 4) as int, d);
            let f = with_u32_at(b1, (p + 4) as int, d);
            assert(f[4] == b1[4] && f[5] == b1[5] && f[6] == b1[6] && f[7] == b1[7]);
        }
    }
}

/// Repairing twice gives the same buffer as repairing once.
pub proof fn lemma_fix_idempotent(b: Seq<u8>)
    ensures
        fixed_wav_header(fixed_wav_header(b)) == fixed_wav_header(b),
{
    if is_riff_wave(b) {
        let n = b.len();
        let r = ((n - 8) as nat) % u32_span();
        let b1 = with_u32_at(b, 4, r);
        lemma_with_u32_reads_back(b, 4, r);
        lemma_find_bounds(b, 12);
        let f = fixed_wav_header(b);
        match find_data_chunk(b, 12) {
            Some(p) => {
                let d = ((n - (p + 8)) as nat) % u32_span();
                lemma_with_u32_reads_back(b1, (p + 4) as int, d);
                assert(f.subrange(0, 4) =~= b.subrange(0, 4));
                assert(f.subrange(8, 12) =~= b.subrange(8, 12));
                assert(is_riff_wave(f));
                lemma_walk_alike(b, f, 12);
                assert(f.subrange(4, 8) =~= b1.subrange(4, 8));
                lemma_with_u32_unchanged(f, 4, r);
                lemma_with_u32_unchanged(f, (p + 4) as int, d);
            },
            None => {
                assert(f.subrange(0, 4) =~= b.subrange(0, 4));
                assert(f.subrange(8, 12) =~= b.subrange(8, 12));
                assert(is_riff_wave(f));
                lemma_walk_alike(b, f, 12);
                lemma_with_u32_unchanged(f, 4, r);
            },
        }
    }
}

fn tag_at(bytes: &Vec<u8>, pos: usize, tag: [u8; 4]) -> (r: bool)
    requires
        pos + 4 <= bytes.len(),
    ensures
        r == (bytes@.subrange(pos as int, pos + 4) == tag@),
{
    let r = bytes[pos] == tag[0] && bytes[pos + 1] == tag[1] && bytes[pos + 2] == tag[2]
        && bytes[pos + 3] == tag[3];
    assert(r ==> bytes@.subrange(pos as int, pos + 4) =~= tag@);
    assert(bytes@.subrange(pos as int, pos + 4) == tag@ ==> bytes@.subrange(pos as int, pos + 4)[0]
        == tag@[0] && bytes@.subrange(pos as int, pos + 4)[1] == tag@[1] && bytes@.subrange(
        pos as int,
        pos + 4,
    )[2] == tag@[2] && bytes@.subrange(pos as int, pos + 4)[3] == tag@[3]);
    r
}

fn read_u32_le(bytes: &Vec<u8>, pos: usize) -> (v: u64)
    requires
        pos + 4 <= bytes.len(),
    ensures
        v == le_u32_at(bytes@, pos as int),
        v < u32_span(),
{
    (bytes[pos] as u64) + 256 * (bytes[pos + 1] as u64) + 65536 * (bytes[pos + 2] as u64)
        + 16777216 * (bytes[pos + 3] as u64)
}

fn write_u32_le(bytes: &mut Vec<u8>, pos: usize, v: u64)
    requires
        pos + 4 <= old(bytes).len(),
    ensures
        final(bytes)@ == with_u32_at(old(bytes)@, pos as int, v as nat),
{
    bytes.set(pos, (v % 256) as u8);
    bytes.set(pos + 1, ((v / 256) % 256) as u8);
    bytes.set(pos + 2, ((v / 65536) % 256) as u8);
    bytes.set(pos + 3, ((v / 16777216) % 256) as u8);
    assert(bytes@ =~= with_u32_at(old(bytes)@, pos as int, v as nat));
}

/// Groq streams the TTS response and doesn't know the final length up front,
/// so it writes placeholder `0xFFFFFFFF` sizes for the RIFF and `data` chunks.
/// WAV decoders treat those as literal sizes and fail to play the audio, so
/// patch them to the real buffer length first.
pub fn fix_streamed_wav_header(bytes: &mut Vec<u8>)
    ensures
        final(bytes)@ == fixed_wav_header(old(bytes)@),
{
    let len = bytes.len();
    if len < 12 || !tag_at(bytes, 0, [0x52u8, 0x49u8, 0x46u8, 0x46u8]) || !tag_at(
        bytes,
        8,
        [0x57u8, 0x41u8, 0x56u8, 0x45u8],
    ) {
        return;
    }
    let ghost b = bytes@;
    let riff_size = ((len - 8) as u64) % 0x1_0000_0000;
    write_u32_le(bytes, 4, riff_size);
    let ghost b1 = bytes@;
    let mut pos: usize = 12;
    while len - pos >= 8
        invariant
            len == b.len(),
            old(bytes)@ == b,
            is_riff_wave(b),
            bytes@ == b1,
            b1 == with_u32_at(b, 4, ((b.len() - 8) as nat) % u32_span()),
            12 <= pos <= len,
            find_data_chunk(b, 12) == find_data_chunk(b, pos as nat),
        ensures
            bytes@ == b1,
            find_data_chunk(b, 12) == None::<nat>,
        decreases len - pos,
    {
        assert(b1.subrange(pos as int, pos + 8) =~= b.subrange(pos as int, pos + 8));
        assert(b1.subrange(pos as int, pos + 4) =~= b.subrange(pos as int, pos + 4));
        if tag_at(bytes, pos, [0x64u8, 0x61u8, 0x74u8, 0x61u8]) {
            let data_size = ((len - (pos + 8)) as u64) % 0x1_0000_0000;
            assert(find_data_chunk(b, pos as nat) == Some(pos as nat));
            assert(data_size as nat == ((b.len() - (pos + 8)) as nat) % u32_span());
            write_u32_le(bytes, pos + 4, data_size);
            return;
        }
        let declared = read_u32_le(bytes, pos + 4);
        assert(declared == le_u32_at(b, pos + 4)) by {
            assert(b1[pos + 4] == b[pos + 4]);
            assert(b1[pos + 5] == b[pos + 5]);
            assert(b1[pos + 6] == b[pos + 6]);
            assert(b1[pos + 7] == b[pos + 7]);
        }
        let step: u64 = 8 + declared + declared % 2;
        if step > (len - pos) as u64 {
            break;
        }
        pos = pos + step as usize;
    }
}

} // verus!
