//! Building and reading tar archives for build-context upload.
//!
//! The builder serializes an ordered list of entries — files,
//! directories, symlinks — into a POSIX ustar byte stream, every byte
//! of which is pinned by [`tar_bytes`]: identical entries always give
//! identical archives, so callers may cache by content hash. The
//! extractor reads such canonical archives back; round-tripping is
//! proved in [`lemma_tar_round_trip`].
//!
//! Entries whose path matches the caller's ignore list are left out by
//! [`filter_ignored`] before serialization. A symlink is stored as a
//! symlink entry with its literal target, never followed; a target
//! pointing outside the archived tree is kept verbatim.

use vstd::prelude::*;

use crate::errors::Error;

verus! {

/// What one archive entry holds.
#[derive(Clone, Debug, PartialEq, Eq)]
pub enum TarKind {
    /// A regular file and its contents.
    File(Vec<u8>),
    /// A directory.
    Dir,
    /// A symbolic link and its literal target.
    Symlink(Vec<u8>),
}

/// One entry of an archive: a relative path with forward slashes, a
/// POSIX mode, and the entry's kind.
#[derive(Clone, Debug, PartialEq, Eq)]
pub struct TarEntry {
    pub path: Vec<u8>,
    pub mode: u32,
    pub kind: TarKind,
}

/// The ghost shape of an entry's kind.
pub ghost enum TarKindV {
    File { data: Seq<u8> },
    Dir,
    Symlink { target: Seq<u8> },
}

/// The ghost shape of an entry.
pub ghost struct TarEntryV {
    pub path: Seq<u8>,
    pub mode: u32,
    pub kind: TarKindV,
}

impl View for TarEntry {
    type V = TarEntryV;

    open spec fn view(&self) -> TarEntryV {
        TarEntryV {
            path: self.path@,
            mode: self.mode,
            kind: match self.kind {
                TarKind::File(d) => TarKindV::File { data: d@ },
                TarKind::Dir => TarKindV::Dir,
                TarKind::Symlink(t) => TarKindV::Symlink { target: t@ },
            },
        }
    }
}

/// 8 to the `w`.
pub open spec fn pow8(w: int) -> int
    decreases w when w >= 0
{
    if w <= 0 {
        1
    } else {
        8 * pow8(w - 1)
    }
}

/// `w` octal digits for `n`, most significant first.
pub open spec fn oct(n: int, w: int) -> Seq<u8>
    decreases w when w >= 0
{
    if w <= 0 {
        Seq::empty()
    } else {
        oct(n / 8, w - 1).push((0x30 + n % 8) as u8)
    }
}

/// The number a run of octal digits spells.
pub open spec fn oct_val(s: Seq<u8>) -> int
    decreases s.len(),
{
    if s.len() == 0 {
        0
    } else {
        oct_val(s.drop_last()) * 8 + (s.last() - 0x30)
    }
}

/// Whether every byte of `s` is an octal digit.
pub open spec fn oct_digits(s: Seq<u8>) -> bool {
    forall|i: int| 0 <= i < s.len() ==> 0x30 <= #[trigger] s[i] <= 0x37
}

/// An octal field has exactly its width.
pub proof fn lemma_oct_len(n: int, w: int)
    requires
        w >= 0,
    ensures
        oct(n, w).len() == w,
    decreases w,
{
    if w > 0 {
        lemma_oct_len(n / 8, w - 1);
    }
}

/// A header is one 512-byte block.
pub proof fn lemma_header_len(e: TarEntryV, chk: Seq<u8>)
    requires
        chk.len() == 8,
        name_of(e.path).len() <= 100,
        prefix_of(e.path).len() <= 155,
        link_of(e.kind).len() <= 100,
    ensures
        header_with(e, chk).len() == 512,
{
    lemma_oct_len(e.mode as int, 7);
    lemma_oct_len(0, 7);
    lemma_oct_len(size_of(e.kind), 11);
    lemma_oct_len(0, 11);
}

/// A valid path's split parts fit their fields and stay free of NUL
/// bytes; the byte at the split is the slash.
pub proof fn lemma_split_parts(path: Seq<u8>)
    requires
        1 <= path.len() <= 255,
        forall|i: int| 0 <= i < path.len() ==> #[trigger] path[i] != 0,
        path.len() <= 100 || {
            let q = split_point(path);
            &&& q + 1 < path.len()
            &&& 1 <= q <= 155
        },
    ensures
        1 <= name_of(path).len() <= 100,
        prefix_of(path).len() <= 155,
        forall|i: int| 0 <= i < name_of(path).len() ==> #[trigger] name_of(path)[i] != 0,
        forall|i: int| 0 <= i < prefix_of(path).len() ==> #[trigger] prefix_of(path)[i] != 0,
        path.len() > 100 ==> path[split_point(path)] == 0x2f && prefix_of(path).len()
            == split_point(path) && prefix_of(path) + seq![0x2fu8] + name_of(path) == path,
{
    if path.len() > 100 {
        lemma_find_slash_props(path, path.len() - 101);
        let q = split_point(path);
        assert(name_of(path).len() == path.len() - q - 1);
        assert(prefix_of(path) + seq![0x2fu8] + name_of(path) =~= path);
    }
}

/// Formatting then reading an octal field gives the number back.
pub proof fn lemma_oct_round_trip(n: int, w: int)
    requires
        w >= 0,
        0 <= n < pow8(w),
    ensures
        oct_val(oct(n, w)) == n,
        oct_digits(oct(n, w)),
        oct(n, w).len() == w,
    decreases w,
{
    if w == 0 {
    } else {
        assert(n / 8 < pow8(w - 1)) by {
            assert(pow8(w) == 8 * pow8(w - 1));
        }
        lemma_oct_round_trip(n / 8, w - 1);
        let s = oct(n, w);
        assert(s.drop_last() =~= oct(n / 8, w - 1));
        assert(s.last() == (0x30 + n % 8) as u8);
        assert(oct_val(s) == (n / 8) * 8 + n % 8);
        assert((n / 8) * 8 + n % 8 == n) by (nonlinear_arith)
            requires n >= 0;
        assert forall|i: int| 0 <= i < s.len() implies 0x30 <= #[trigger] s[i] <= 0x37 by {
            if i < s.len() - 1 {
                assert(s[i] == oct(n / 8, w - 1)[i]);
            }
        }
    }
}

/// `s` padded with zero bytes to length `w`.
pub open spec fn pad_zeros(s: Seq<u8>, w: int) -> Seq<u8> {
    s + zeros(w - s.len())
}

/// `n` zero bytes.
pub open spec fn zeros(n: int) -> Seq<u8> {
    Seq::new(if n >= 0 { n as nat } else { 0 }, |i: int| 0u8)
}

/// The sum of all bytes of `s`.
pub open spec fn byte_sum(s: Seq<u8>) -> int
    decreases s.len(),
{
    if s.len() == 0 {
        0
    } else {
        byte_sum(s.drop_last()) + s.last()
    }
}

/// A byte sum is bounded by 255 per byte.
pub proof fn lemma_byte_sum_bounds(s: Seq<u8>)
    ensures
        0 <= byte_sum(s) <= 255 * s.len(),
    decreases s.len(),
{
    if s.len() > 0 {
        lemma_byte_sum_bounds(s.drop_last());
    }
}

/// The typeflag byte for a kind.
pub open spec fn typeflag(k: TarKindV) -> u8 {
    match k {
        TarKindV::File { .. } => 0x30,
        TarKindV::Dir => 0x35,
        TarKindV::Symlink { .. } => 0x32,
    }
}

/// The linkname field's content: the symlink target, else empty.
pub open spec fn link_of(k: TarKindV) -> Seq<u8> {
    match k {
        TarKindV::Symlink { target } => target,
        _ => Seq::empty(),
    }
}

/// The size field's number: the file length, else zero.
pub open spec fn size_of(k: TarKindV) -> int {
    match k {
        TarKindV::File { data } => data.len() as int,
        _ => 0,
    }
}


/// The first slash at or after `from`, or the length if none.
pub open spec fn find_slash(s: Seq<u8>, from: int) -> int
    decreases s.len() - from
        when 0 <= from <= s.len()
{
    if from >= s.len() {
        s.len() as int
    } else if s[from] == 0x2f {
        from
    } else {
        find_slash(s, from + 1)
    }
}

/// A slash search stays within bounds and stops on a slash.
pub proof fn lemma_find_slash_props(s: Seq<u8>, from: int)
    requires
        0 <= from <= s.len(),
    ensures
        from <= find_slash(s, from) <= s.len(),
        find_slash(s, from) < s.len() ==> s[find_slash(s, from)] == 0x2f,
    decreases s.len() - from,
{
    if from < s.len() && s[from] != 0x2f {
        lemma_find_slash_props(s, from + 1);
    }
}

/// Where a long path splits between the prefix and name fields: the
/// first slash that leaves at most 100 name bytes.
pub open spec fn split_point(path: Seq<u8>) -> int
    recommends
        path.len() > 100,
{
    find_slash(path, path.len() - 101)
}

/// The part of a path the name field holds.
pub open spec fn name_of(path: Seq<u8>) -> Seq<u8> {
    if path.len() <= 100 {
        path
    } else {
        path.skip(split_point(path) + 1)
    }
}

/// The part of a path the prefix field holds.
pub open spec fn prefix_of(path: Seq<u8>) -> Seq<u8> {
    if path.len() <= 100 {
        Seq::empty()
    } else {
        path.take(split_point(path))
    }
}

/// The ustar magic and version bytes.
pub open spec fn magic_bytes() -> Seq<u8> {
    seq![0x75u8, 0x73u8, 0x74u8, 0x61u8, 0x72u8, 0u8, 0x30u8, 0x30u8]
}

/// The 512-byte header with the checksum field set to `chk`. A path
/// over 100 bytes is split at a slash between the prefix field and
/// the name field.
pub open spec fn header_with(e: TarEntryV, chk: Seq<u8>) -> Seq<u8> {
    pad_zeros(name_of(e.path), 100)  // name
     + oct(e.mode as int, 7).push(0u8)  // mode
     + oct(0, 7).push(0u8)  // uid
     + oct(0, 7).push(0u8)  // gid
     + oct(size_of(e.kind), 11).push(0u8)  // size
     + oct(0, 11).push(0u8)  // mtime
     + chk  // checksum
     + seq![typeflag(e.kind)]  // typeflag
     + pad_zeros(link_of(e.kind), 100)  // linkname
     + magic_bytes()  // magic + version
     + zeros(80)  // owner names and device numbers
     + pad_zeros(prefix_of(e.path), 155)  // prefix
     + zeros(12)
}

/// The checksum field: six octal digits, a NUL, a space.
pub open spec fn chk_field(sum: int) -> Seq<u8> {
    oct(sum, 6).push(0u8).push(0x20u8)
}

/// Eight spaces: what the checksum field holds while it is summed.
pub open spec fn chk_blank() -> Seq<u8> {
    Seq::new(8, |i: int| 0x20u8)
}

/// The header of an entry: summed with a blank checksum field, then
/// written with the sum in place.
pub open spec fn header_bytes(e: TarEntryV) -> Seq<u8> {
    header_with(e, chk_field(byte_sum(header_with(e, chk_blank()))))
}

/// A file's payload, zero-padded to whole 512-byte blocks; directories
/// and symlinks carry none.
pub open spec fn payload_bytes(k: TarKindV) -> Seq<u8> {
    match k {
        TarKindV::File { data } => data + zeros((512 - data.len() as int % 512) % 512),
        _ => Seq::empty(),
    }
}

/// One entry on the wire: its header, then its payload.
pub open spec fn entry_bytes(e: TarEntryV) -> Seq<u8> {
    header_bytes(e) + payload_bytes(e.kind)
}

/// All entries in order.
pub open spec fn entries_bytes(es: Seq<TarEntryV>) -> Seq<u8>
    decreases es.len(),
{
    if es.len() == 0 {
        Seq::empty()
    } else {
        entry_bytes(es[0]) + entries_bytes(es.skip(1))
    }
}

/// The whole archive: the entries, then two zero blocks.
pub open spec fn tar_bytes(es: Seq<TarEntryV>) -> Seq<u8> {
    entries_bytes(es) + zeros(1024)
}

/// What the builder accepts of an entry: a path without NUL bytes
/// that fits the name field, or splits at a slash over the prefix and
/// name fields; a mode within seven octal digits; a file small enough
/// for the size field; and a symlink target that fits the linkname
/// field.
pub open spec fn entry_valid(e: TarEntryV) -> bool {
    &&& 1 <= e.path.len() <= 255
    &&& forall|i: int| 0 <= i < e.path.len() ==> #[trigger] e.path[i] != 0
    &&& (e.path.len() <= 100 || {
        let q = split_point(e.path);
        &&& q + 1 < e.path.len()
        &&& 1 <= q <= 155
    })
    &&& e.mode < 0x200000
    &&& match e.kind {
        TarKindV::File { data } => data.len() < 0x200000000,
        TarKindV::Dir => true,
        TarKindV::Symlink { target } => {
            &&& 1 <= target.len() <= 100
            &&& forall|i: int| 0 <= i < target.len() ==> #[trigger] target[i] != 0
        },
    }
}

/// Appending one entry extends the serialized entries.
proof fn lemma_entries_bytes_snoc(es: Seq<TarEntryV>, e: TarEntryV)
    ensures
        entries_bytes(es.push(e)) == entries_bytes(es) + entry_bytes(e),
    decreases es.len(),
{
    if es.len() == 0 {
        assert(es.push(e)[0] == e);
        assert(es.push(e).skip(1) =~= Seq::<TarEntryV>::empty());
        assert(es.push(e).skip(1) == Seq::<TarEntryV>::empty());
        assert(entries_bytes(es.push(e).skip(1)) == entries_bytes(Seq::<TarEntryV>::empty()));
        assert(entries_bytes(es.push(e)) == entry_bytes(e) + Seq::<u8>::empty());
        assert(entry_bytes(e) + Seq::<u8>::empty() =~= Seq::<u8>::empty() + entry_bytes(e));
        assert(entries_bytes(es) == Seq::<u8>::empty());
    } else {
        assert(es.push(e)[0] == es[0]);
        assert(es.push(e).skip(1) =~= es.skip(1).push(e));
        lemma_entries_bytes_snoc(es.skip(1), e);
        assert(entry_bytes(es[0]) + (entries_bytes(es.skip(1)) + entry_bytes(e)) =~= (entry_bytes(
            es[0],
        ) + entries_bytes(es.skip(1))) + entry_bytes(e));
    }
}

/// Append `w` octal digits for `n`.
fn push_oct(out: &mut Vec<u8>, n: u64, w: u8)
    ensures
        final(out)@ == old(out)@ + oct(n as int, w as int),
    decreases w,
{
    if w == 0 {
        proof {
            assert(old(out)@ + oct(n as int, 0) =~= old(out)@);
        }
    } else {
        push_oct(out, n / 8, w - 1);
        out.push(0x30 + (n % 8) as u8);
        proof {
            assert(old(out)@ + oct((n / 8) as int, w - 1).push((0x30 + n as int % 8) as u8)
                =~= (old(out)@ + oct((n / 8) as int, w - 1)).push((0x30 + n as int % 8) as u8));
        }
    }
}

/// Append `n` zero bytes.
fn push_zeros(out: &mut Vec<u8>, n: usize)
    ensures
        final(out)@ == old(out)@ + zeros(n as int),
    decreases n,
{
    let mut i: usize = 0;
    while i < n
        invariant
            i <= n,
            out@ == old(out)@ + zeros(i as int),
        decreases n - i,
    {
        out.push(0);
        proof {
            assert(old(out)@ + zeros(i as int).push(0u8) =~= old(out)@ + zeros(i + 1));
        }
        i += 1;
    }
    proof {
        assert(old(out)@ + zeros(0) =~= old(out)@);
    }
}

/// Append `s` zero-padded to `w` bytes.
fn push_padded(out: &mut Vec<u8>, s: &Vec<u8>, w: usize)
    requires
        s@.len() <= w,
    ensures
        final(out)@ == old(out)@ + pad_zeros(s@, w as int),
{
    out.extend_from_slice(s.as_slice());
    push_zeros(out, w - s.len());
    proof {
        assert(old(out)@ + s@ + zeros(w - s@.len()) =~= old(out)@ + pad_zeros(s@, w as int));
    }
}

/// Find the first slash at or after `from`, as [`find_slash`].
fn find_slash_x(v: &Vec<u8>, from: usize) -> (r: usize)
    requires
        from <= v@.len(),
    ensures
        r == find_slash(v@, from as int),
        from <= r <= v@.len(),
    decreases v@.len() - from,
{
    if from < v.len() {
        if v[from] == 0x2f {
            return from;
        }
        return find_slash_x(v, from + 1);
    }
    from
}

/// Append a zero-padded field holding `v[a..b)`.
fn push_padded_range(out: &mut Vec<u8>, v: &Vec<u8>, a: usize, b: usize, w: usize)
    requires
        a <= b <= v@.len(),
        b - a <= w,
    ensures
        final(out)@ == old(out)@ + pad_zeros(v@.subrange(a as int, b as int), w as int),
{
    let piece = vstd::slice::slice_subrange(v.as_slice(), a, b);
    out.extend_from_slice(piece);
    push_zeros(out, w - (b - a));
    proof {
        assert(old(out)@ + v@.subrange(a as int, b as int) + zeros(
            w - (b - a),
        ) =~= old(out)@ + pad_zeros(v@.subrange(a as int, b as int), w as int));
    }
}

/// Append the header of `e` with checksum field `chk`.
#[verifier::rlimit(100)]
fn push_header_with(out: &mut Vec<u8>, e: &TarEntry, chk: &Vec<u8>)
    requires
        entry_valid(e@),
        chk@.len() == 8,
    ensures
        final(out)@ == old(out)@ + header_with(e@, chk@),
{
    let empty: Vec<u8> = Vec::new();
    let plen = e.path.len();
    let q: usize = if plen <= 100 {
        push_padded(out, &e.path, 100);
        0
    } else {
        proof {
            lemma_split_parts(e.path@);
        }
        let q = find_slash_x(&e.path, plen - 101);
        push_padded_range(out, &e.path, q + 1, plen, 100);
        proof {
            assert(e.path@.subrange(q + 1, plen as int) =~= name_of(e.path@));
        }
        q
    };
    push_oct(out, e.mode as u64, 7);
    out.push(0);
    push_oct(out, 0, 7);
    out.push(0);
    push_oct(out, 0, 7);
    out.push(0);
    let size: u64 = match &e.kind {
        TarKind::File(d) => d.len() as u64,
        _ => 0,
    };
    push_oct(out, size, 11);
    out.push(0);
    push_oct(out, 0, 11);
    out.push(0);
    out.extend_from_slice(chk.as_slice());
    out.push(match &e.kind {
        TarKind::File(_) => 0x30,
        TarKind::Dir => 0x35,
        TarKind::Symlink(_) => 0x32,
    });
    match &e.kind {
        TarKind::Symlink(t) => push_padded(out, t, 100),
        _ => push_padded(out, &empty, 100),
    }
    out.push(0x75);
    out.push(0x73);
    out.push(0x74);
    out.push(0x61);
    out.push(0x72);
    out.push(0);
    out.push(0x30);
    out.push(0x30);
    push_zeros(out, 80);
    if plen <= 100 {
        push_zeros(out, 155);
        proof {
            assert(pad_zeros(prefix_of(e.path@), 155) =~= zeros(155));
        }
    } else {
        push_padded_range(out, &e.path, 0, q, 155);
        proof {
            assert(e.path@.subrange(0, q as int) =~= prefix_of(e.path@));
        }
    }
    push_zeros(out, 12);
    proof {
        match &e.kind {
            TarKind::Symlink(t) => {
                assert(link_of(e@.kind) == t@);
            },
            _ => {
                assert(pad_zeros(link_of(e@.kind), 100) =~= pad_zeros(empty@, 100));
            },
        }
        assert(out@ =~= old(out)@ + header_with(e@, chk@));
    }
}

/// The sum of all bytes of `v` past position `from`.
fn sum_bytes_from(v: &Vec<u8>, from: usize) -> (r: u64)
    requires
        from <= v@.len(),
        v@.len() - from <= 1024,
    ensures
        r == byte_sum(v@.skip(from as int)),
{
    let n = v.len();
    let mut i: usize = from;
    let mut sum: u64 = 0;
    proof {
        assert(v@.skip(from as int).take(0int) =~= Seq::<u8>::empty());
    }
    while i < n
        invariant
            from <= i <= n,
            n == v@.len(),
            n - from <= 1024,
            sum == byte_sum(v@.skip(from as int).take(i - from)),
            sum <= 255 * (i - from),
        decreases n - i,
    {
        let ghost pre = v@.skip(from as int).take(i - from);
        sum = sum + v[i] as u64;
        proof {
            let cur = v@.skip(from as int).take(i + 1 - from);
            assert(cur.drop_last() =~= pre);
            assert(cur.last() == v@[i as int]);
        }
        i += 1;
    }
    proof {
        assert(v@.skip(from as int).take(n - from) =~= v@.skip(from as int));
    }
    sum
}

/// Serialize `entries` into one canonical ustar archive, exactly
/// [`tar_bytes`].
pub fn tar_archive(entries: &Vec<TarEntry>) -> (r: Vec<u8>)
    requires
        forall|i: int| 0 <= i < entries@.len() ==> entry_valid((#[trigger] entries@[i])@),
    ensures
        r@ == tar_bytes(entries@.map_values(|e: TarEntry| e@)),
{
    let mut out: Vec<u8> = Vec::new();
    let n = entries.len();
    let mut i: usize = 0;
    proof {
        assert(entries@.map_values(|e: TarEntry| e@).take(0int) =~= Seq::<TarEntryV>::empty());
        assert(out@ =~= entries_bytes(Seq::<TarEntryV>::empty()));
    }
    while i < n
        invariant
            n == entries.len(),
            i <= n,
            forall|k: int| 0 <= k < entries@.len() ==> entry_valid((#[trigger] entries@[k])@),
            out@ == entries_bytes(entries@.map_values(|e: TarEntry| e@).take(i as int)),
        decreases n - i,
    {
        let e = &entries[i];
        let ghost ev = e@;
        let ghost before = out@;

        // First pass: the header with a blank checksum field, in a
        // scratch buffer that is then summed.
        let mut scratch: Vec<u8> = Vec::new();
        let mut blank: Vec<u8> = Vec::new();
        let mut k: usize = 0;
        while k < 8
            invariant
                k <= 8,
                blank@ == chk_blank().take(k as int),
            decreases 8 - k,
        {
            blank.push(0x20);
            proof {
                assert(chk_blank().take(k + 1) =~= chk_blank().take(k as int).push(0x20u8));
            }
            k += 1;
        }
        proof {
            assert(chk_blank().take(8) =~= chk_blank());
        }
        push_header_with(&mut scratch, e, &blank);
        proof {
            assert(scratch@.skip(0) =~= header_with(ev, chk_blank()));
            lemma_byte_sum_bounds(header_with(ev, chk_blank()));
            lemma_split_parts(ev.path);
            lemma_header_len(ev, chk_blank());
        }
        let sum = sum_bytes_from(&scratch, 0);

        // Second pass: the real header, with the checksum in place.
        let mut chk: Vec<u8> = Vec::new();
        push_oct(&mut chk, sum, 6);
        chk.push(0);
        chk.push(0x20);
        proof {
            lemma_oct_len(sum as int, 6);
            assert(chk@ =~= chk_field(sum as int));
        }
        push_header_with(&mut out, e, &chk);

        // Payload, padded to whole blocks.
        match &e.kind {
            TarKind::File(d) => {
                out.extend_from_slice(d.as_slice());
                let rem = d.len() % 512;
                let pad = if rem == 0 {
                    0
                } else {
                    512 - rem
                };
                push_zeros(&mut out, pad);
                proof {
                    assert(pad as int == (512 - d@.len() as int % 512) % 512);
                    assert(out@ =~= before + header_bytes(ev) + payload_bytes(ev.kind));
                }
            },
            _ => {
                proof {
                    assert(payload_bytes(ev.kind) =~= Seq::<u8>::empty());
                    assert(out@ =~= before + header_bytes(ev) + payload_bytes(ev.kind));
                }
            },
        }
        proof {
            let evs = entries@.map_values(|x: TarEntry| x@);
            assert(evs.take(i + 1) =~= evs.take(i as int).push(ev));
            lemma_entries_bytes_snoc(evs.take(i as int), ev);
            assert(out@ =~= entries_bytes(evs.take(i + 1)));
        }
        i += 1;
    }
    proof {
        let evs = entries@.map_values(|x: TarEntry| x@);
        assert(evs.take(n as int) =~= evs);
    }
    push_zeros(&mut out, 1024);
    out
}

/// The first zero byte's position in `s`, or its length if none.
pub open spec fn find_zero(s: Seq<u8>, from: int) -> int
    decreases s.len() - from
        when 0 <= from <= s.len()
{
    if from >= s.len() {
        s.len() as int
    } else if s[from] == 0 {
        from
    } else {
        find_zero(s, from + 1)
    }
}

/// A zero at `idx` behind nonzero bytes pins the search down.
proof fn lemma_find_zero_at(s: Seq<u8>, from: int, idx: int)
    requires
        0 <= from <= idx <= s.len(),
        idx < s.len() ==> s[idx] == 0,
        forall|j: int| from <= j < idx ==> s[j] != 0,
    ensures
        find_zero(s, from) == idx,
    decreases idx - from,
{
    if from < idx {
        lemma_find_zero_at(s, from + 1, idx);
    }
}

/// Octal digits spell a number below eight to their count.
proof fn lemma_oct_val_bound(s: Seq<u8>)
    requires
        oct_digits(s),
    ensures
        0 <= oct_val(s) < pow8(s.len() as int),
    decreases s.len(),
{
    if s.len() > 0 {
        assert(oct_digits(s.drop_last())) by {
            assert(forall|i: int|
                0 <= i < s.len() - 1 ==> s.drop_last()[i] == #[trigger] s[i]);
        }
        lemma_oct_val_bound(s.drop_last());
        assert(pow8(s.len() as int) == 8 * pow8(s.len() - 1));
    }
}

/// The all-zero-digit octal field.
proof fn lemma_oct_zero(w: int)
    requires
        w >= 0,
    ensures
        oct(0, w) =~= Seq::new(w as nat, |i: int| 0x30u8),
    decreases w,
{
    if w > 0 {
        lemma_oct_zero(w - 1);
    }
}

/// The head fields a parsed header yields.
pub ghost struct TarHeadV {
    pub path: Seq<u8>,
    pub mode: u32,
    pub flag: u8,
    pub link: Seq<u8>,
    pub size: int,
}

/// Whether `f` holds `content` as a NUL-padded field of width `w`:
/// the content, one NUL if room remains, zeros after.
pub open spec fn padded_field_ok(f: Seq<u8>, content: Seq<u8>) -> bool {
    &&& content.len() <= f.len()
    &&& content == f.take(content.len() as int)
    &&& forall|i: int| content.len() <= i < f.len() ==> #[trigger] f[i] == 0
    &&& forall|i: int| 0 <= i < content.len() ==> #[trigger] content[i] != 0
}

/// Read one canonical 512-byte header, as the builder writes it.
#[verifier::opaque]
pub open spec fn parse_header(h: Seq<u8>) -> Option<TarHeadV>
    recommends
        h.len() == 512,
{
    let name_end = find_zero(h.take(100), 0);
    let link_end = find_zero(h.subrange(157, 257), 0);
    let pfx_end = find_zero(h.subrange(345, 500), 0);
    if {
        &&& 1 <= name_end
    
        &&& (forall|i: int| name_end < i < 100 ==> #[trigger] h[i] == 0)
        &&& oct_digits(h.subrange(100, 107)) && h[107] == 0
        &&& h.subrange(108, 116) == oct(0, 7).push(0u8)
        &&& h.subrange(116, 124) == oct(0, 7).push(0u8)
        &&& oct_digits(h.subrange(124, 135)) && h[135] == 0
        &&& h.subrange(136, 148) == oct(0, 11).push(0u8)
        &&& oct_digits(h.subrange(148, 154)) && h[154] == 0 && h[155] == 0x20
        &&& oct_val(h.subrange(148, 154)) == byte_sum(
            h.take(148) + chk_blank() + h.skip(156),
        )
        &&& (h[156] == 0x30 || h[156] == 0x35 || h[156] == 0x32)
        &&& (if h[156] == 0x32 {
            &&& 1 <= link_end
            &&& forall|i: int| link_end < i < 100 ==> #[trigger] h.subrange(157, 257)[i] == 0
        } else {
            h.subrange(157, 257) == zeros(100)
        })
        &&& h.subrange(257, 265) == magic_bytes()
        &&& h.subrange(265, 345) == zeros(80)
        &&& (forall|i: int| pfx_end < i < 155 ==> #[trigger] h.subrange(345, 500)[i] == 0)
        &&& h.skip(500) == zeros(12)
        &&& (h[156] == 0x30 || oct_val(h.subrange(124, 135)) == 0)
        &&& 0 <= oct_val(h.subrange(124, 135))
    } {
        Some(
            TarHeadV {
                path: if pfx_end == 0 {
                    h.take(100).take(name_end)
                } else {
                    h.subrange(345, 500).take(pfx_end) + seq![0x2fu8] + h.take(100).take(
                        name_end,
                    )
                },
                mode: oct_val(h.subrange(100, 107)) as u32,
                flag: h[156],
                link: if h[156] == 0x32 {
                    h.subrange(157, 257).take(link_end)
                } else {
                    Seq::empty()
                },
                size: oct_val(h.subrange(124, 135)),
            },
        )
    } else {
        None
    }
}

/// The entry a head and its payload data make.
pub open spec fn entry_of_head(hd: TarHeadV, data: Seq<u8>) -> TarEntryV {
    TarEntryV {
        path: hd.path,
        mode: hd.mode,
        kind: if hd.flag == 0x30 {
            TarKindV::File { data }
        } else if hd.flag == 0x35 {
            TarKindV::Dir
        } else {
            TarKindV::Symlink { target: hd.link }
        },
    }
}

/// Read back a canonical archive: every entry in order, or nothing if
/// any byte strays from what [`tar_bytes`] lays down. The archive must
/// end in the two zero blocks, exactly at an entry boundary.
pub open spec fn parse_entries(b: Seq<u8>) -> Option<Seq<TarEntryV>>
    decreases b.len(),
{
    if b.len() < 512 {
        None
    } else if b[0] == 0 {
        if b.len() >= 1024 && b == zeros(b.len() as int) {
            Some(Seq::empty())
        } else {
            None
        }
    } else {
        match parse_header(b.take(512)) {
            Some(hd) => {
                let pad = (512 - hd.size % 512) % 512;
                if {
                    &&& 0 <= hd.size
                    &&& b.len() >= 512 + hd.size + pad
                    &&& b.subrange(512 + hd.size, 512 + hd.size + pad) == zeros(pad)
                } {
                    match parse_entries(b.skip(512 + hd.size + pad)) {
                        Some(rest) => Some(
                            seq![entry_of_head(hd, b.subrange(512, 512 + hd.size))] + rest,
                        ),
                        None => None,
                    }
                } else {
                    None
                }
            },
            None => None,
        }
    }
}

/// Reading a header the builder wrote gives the entry's fields back.
#[verifier::rlimit(100)]
proof fn lemma_parse_header_of(e: TarEntryV)
    requires
        entry_valid(e),
    ensures
        parse_header(header_bytes(e)) matches Some(hd) && hd.path == e.path && hd.mode == e.mode
            && hd.flag == typeflag(e.kind) && hd.link == link_of(e.kind) && hd.size == size_of(
            e.kind,
        ),
{
    reveal(parse_header);
    lemma_split_parts(e.path);
    let name = name_of(e.path);
    let pfx = prefix_of(e.path);
    let blank = header_with(e, chk_blank());
    let sum = byte_sum(blank);
    let h = header_with(e, chk_field(sum));
    lemma_byte_sum_bounds(blank);
    lemma_header_len(e, chk_blank());
    lemma_oct_len(sum, 6);
    lemma_header_len(e, chk_field(sum));
    lemma_oct_len(e.mode as int, 7);
    lemma_oct_len(0, 7);
    lemma_oct_len(size_of(e.kind), 11);
    lemma_oct_len(0, 11);

    // Each field of the written header.
    assert(h.take(100) =~= pad_zeros(name, 100));
    assert(h.subrange(100, 107) =~= oct(e.mode as int, 7));
    assert(h[107] == 0);
    assert(h.subrange(108, 116) =~= oct(0, 7).push(0u8));
    assert(h.subrange(116, 124) =~= oct(0, 7).push(0u8));
    assert(h.subrange(124, 135) =~= oct(size_of(e.kind), 11));
    assert(h[135] == 0);
    assert(h.subrange(136, 148) =~= oct(0, 11).push(0u8));
    assert(h.subrange(148, 154) =~= oct(sum, 6));
    assert(h[154] == 0 && h[155] == 0x20);
    assert(h[156] == typeflag(e.kind));
    assert(h.subrange(157, 257) =~= pad_zeros(link_of(e.kind), 100));
    assert(h.subrange(257, 265) =~= magic_bytes());
    assert(h.subrange(265, 345) =~= zeros(80));
    assert(h.subrange(345, 500) =~= pad_zeros(pfx, 155));
    assert(h.skip(500) =~= zeros(12));

    // The name field scans back to the name part.
    let namef = h.take(100);
    assert(forall|j: int| 0 <= j < name.len() ==> namef[j] == #[trigger] name[j]);
    if name.len() < 100 {
        assert(namef[name.len() as int] == 0);
    }
    lemma_find_zero_at(namef, 0, name.len() as int);
    assert(namef.take(name.len() as int) =~= name);

    // The prefix field scans back to the prefix part.
    let pfxf = h.subrange(345, 500);
    assert(forall|j: int| 0 <= j < pfx.len() ==> pfxf[j] == #[trigger] pfx[j]);
    if pfx.len() < 155 {
        assert(pfxf[pfx.len() as int] == 0);
    }
    lemma_find_zero_at(pfxf, 0, pfx.len() as int);
    assert(pfxf.take(pfx.len() as int) =~= pfx);
    if e.path.len() <= 100 {
        assert(pfx.len() == 0);
        assert(name == e.path);
    } else {
        assert(pfx.len() >= 1);
        assert(pfxf.take(pfx.len() as int) + seq![0x2fu8] + namef.take(name.len() as int)
            == e.path);
    }

    // The checksum field verifies.
    assert(h.take(148) =~= blank.take(148));
    assert(h.skip(156) =~= blank.skip(156));
    assert(h.take(148) + chk_blank() + h.skip(156) =~= blank);
    assert(pow8(0) == 1);
    assert(pow8(1) == 8);
    assert(pow8(2) == 64);
    assert(pow8(3) == 512);
    assert(pow8(4) == 4096);
    assert(pow8(5) == 32768);
    assert(pow8(6) == 262144);
    assert(pow8(7) == 0x200000);
    assert(pow8(8) == 0x1000000);
    assert(pow8(9) == 0x8000000);
    assert(pow8(10) == 0x40000000);
    assert(pow8(11) == 0x200000000);
    assert(512 * 255 < 262144);
    lemma_oct_round_trip(sum, 6);

    // The mode and size fields read back.
    lemma_oct_round_trip(e.mode as int, 7);
    assert(0 <= size_of(e.kind) < 0x200000000);
    lemma_oct_round_trip(size_of(e.kind), 11);

    // The link field scans back to the target, or is all zeros.
    let link = h.subrange(157, 257);
    match e.kind {
        TarKindV::Symlink { target } => {
            assert(forall|j: int| 0 <= j < target.len() ==> link[j] == #[trigger] target[j]);
            if target.len() < 100 {
                assert(link[target.len() as int] == 0);
            }
            lemma_find_zero_at(link, 0, target.len() as int);
            assert(link.take(target.len() as int) =~= target);
        },
        _ => {
            assert(link =~= zeros(100));
        },
    }
}

/// Parsing one written entry ahead of any tail peels it off.
#[verifier::rlimit(100)]
proof fn lemma_tar_cons(e: TarEntryV, tail: Seq<u8>)
    requires
        entry_valid(e),
    ensures
        parse_entries(entry_bytes(e) + tail) == (match parse_entries(tail) {
            Some(r) => Some(seq![e] + r),
            None => None::<Seq<TarEntryV>>,
        }),
{
    let b = entry_bytes(e) + tail;
    let hb = header_bytes(e);
    let pb = payload_bytes(e.kind);
    lemma_split_parts(e.path);
    lemma_oct_len(byte_sum(header_with(e, chk_blank())), 6);
    lemma_header_len(e, chk_field(byte_sum(header_with(e, chk_blank()))));
    assert(b =~= hb + (pb + tail));
    assert(b.len() >= 512);
    assert(b[0] == hb[0]);
    assert(hb[0] == pad_zeros(name_of(e.path), 100)[0]);
    assert(pad_zeros(name_of(e.path), 100)[0] == name_of(e.path)[0]);
    assert(b[0] != 0);
    assert(b.take(512) =~= hb);
    lemma_parse_header_of(e);
    let hd = parse_header(hb).unwrap();
    let size = size_of(e.kind);
    let pad = (512 - size % 512) % 512;
    assert(pb.len() == size + pad) by {
        match e.kind {
            TarKindV::File { data } => {},
            _ => {},
        }
    }
    assert(b.len() >= 512 + size + pad);
    assert(b.subrange(512 + size, 512 + size + pad) =~= zeros(pad)) by {
        match e.kind {
            TarKindV::File { data } => {
                assert(forall|j: int| 0 <= j < pad ==> pb[size + j] == #[trigger] zeros(pad)[j]);
            },
            _ => {},
        }
    }
    assert(b.subrange(512, 512 + size) =~= (match e.kind {
        TarKindV::File { data } => data,
        _ => Seq::<u8>::empty(),
    }));
    assert(b.skip(512 + size + pad) =~= tail);
    assert(entry_of_head(hd, b.subrange(512, 512 + size)) == e);
}

/// Concatenation associates.
proof fn lemma_seq_assoc(a: Seq<u8>, b: Seq<u8>, c: Seq<u8>)
    ensures
        (a + b) + c == a + (b + c),
{
    assert((a + b) + c =~= a + (b + c));
}

/// Round trip: reading back an archive the builder wrote yields the
/// entries that went in — the same paths and the same file contents.
#[verifier::rlimit(100)]
pub proof fn lemma_tar_round_trip(es: Seq<TarEntryV>)
    requires
        forall|i: int| 0 <= i < es.len() ==> entry_valid(#[trigger] es[i]),
    ensures
        parse_entries(tar_bytes(es)) == Some(es),
    decreases es.len(),
{
    let b = tar_bytes(es);
    if es.len() == 0 {
        assert(entries_bytes(es) == Seq::<u8>::empty());
        assert(b == zeros(1024)) by {
            assert(Seq::<u8>::empty() + zeros(1024) =~= zeros(1024));
        }
        assert(b.len() == 1024);
        assert(b[0] == 0);
        assert(b == zeros(b.len() as int));
        assert(parse_entries(b) == Some(Seq::<TarEntryV>::empty()));
        assert(es =~= Seq::<TarEntryV>::empty());
    } else {
        assert(b == entry_bytes(es[0]) + tar_bytes(es.skip(1))) by {
            assert(entries_bytes(es) == entry_bytes(es[0]) + entries_bytes(es.skip(1)));
            lemma_seq_assoc(entry_bytes(es[0]), entries_bytes(es.skip(1)), zeros(1024));
        }
        lemma_tar_cons(es[0], tar_bytes(es.skip(1)));
        assert(forall|i: int| 0 <= i < es.skip(1).len() ==> entry_valid(#[trigger] es.skip(1)[i]));
        lemma_tar_round_trip(es.skip(1));
        assert(seq![es[0]] + es.skip(1) =~= es);
    }
}

/// Whether `path` matches one ignore pattern: the path itself, or
/// anything below it as a directory.
pub open spec fn matches_pattern(path: Seq<u8>, p: Seq<u8>) -> bool {
    path == p || (path.len() > p.len() && path.take(p.len() as int) == p && path[p.len() as int]
        == 0x2f)
}

/// Whether `path` is excluded by the ignore list.
pub open spec fn ignored(path: Seq<u8>, pats: Seq<Seq<u8>>) -> bool {
    exists|i: int| 0 <= i < pats.len() && matches_pattern(path, #[trigger] pats[i])
}

/// The entries that survive the ignore list, in their original order.
pub open spec fn keep_entries(es: Seq<TarEntryV>, pats: Seq<Seq<u8>>) -> Seq<TarEntryV>
    decreases es.len(),
{
    if es.len() == 0 {
        Seq::empty()
    } else if ignored(es.last().path, pats) {
        keep_entries(es.drop_last(), pats)
    } else {
        keep_entries(es.drop_last(), pats).push(es.last())
    }
}


/// A copy of the bytes.
pub(crate) fn clone_bytes(v: &Vec<u8>) -> (r: Vec<u8>)
    ensures
        r@ == v@,
{
    let mut out: Vec<u8> = Vec::new();
    out.extend_from_slice(v.as_slice());
    proof {
        assert(Seq::<u8>::empty() + v@ =~= v@);
    }
    out
}

/// A copy of one entry, field for field.
fn clone_entry(e: &TarEntry) -> (r: TarEntry)
    ensures
        r@ == e@,
{
    TarEntry {
        path: clone_bytes(&e.path),
        mode: e.mode,
        kind: match &e.kind {
            TarKind::File(d) => TarKind::File(clone_bytes(d)),
            TarKind::Dir => TarKind::Dir,
            TarKind::Symlink(t) => TarKind::Symlink(clone_bytes(t)),
        },
    }
}

/// Whether the byte vectors hold the same bytes.
pub(crate) fn bytes_eq(a: &Vec<u8>, b: &Vec<u8>) -> (r: bool)
    ensures
        r == (a@ == b@),
{
    if a.len() != b.len() {
        proof {
            assert(a@ != b@);
        }
        return false;
    }
    let n = a.len();
    let mut i: usize = 0;
    while i < n
        invariant
            n == a@.len() == b@.len(),
            i <= n,
            forall|j: int| 0 <= j < i ==> a@[j] == b@[j],
        decreases n - i,
    {
        if a[i] != b[i] {
            return false;
        }
        i += 1;
    }
    proof {
        assert(a@ =~= b@);
    }
    true
}

/// Whether `path` matches the single pattern `p`.
fn matches_one(path: &Vec<u8>, p: &Vec<u8>) -> (r: bool)
    ensures
        r == matches_pattern(path@, p@),
{
    if bytes_eq(path, p) {
        return true;
    }
    if path.len() <= p.len() {
        return false;
    }
    let n = p.len();
    let mut i: usize = 0;
    while i < n
        invariant
            n == p@.len(),
            n < path@.len(),
            i <= n,
            forall|j: int| 0 <= j < i ==> path@[j] == p@[j],
        decreases n - i,
    {
        if path[i] != p[i] {
            proof {
                assert(path@.take(n as int)[i as int] != p@[i as int]);
            }
            return false;
        }
        i += 1;
    }
    proof {
        assert(path@.take(n as int) =~= p@);
    }
    path[n] == 0x2f
}

/// Drop every entry the ignore list excludes; the rest keep their
/// order, paths and contents untouched.
pub fn filter_ignored(entries: Vec<TarEntry>, pats: &Vec<Vec<u8>>) -> (r: Vec<TarEntry>)
    ensures
        r@.map_values(|e: TarEntry| e@) == keep_entries(
            entries@.map_values(|e: TarEntry| e@),
            pats@.map_values(|p: Vec<u8>| p@),
        ),
{
    let ghost pv = pats@.map_values(|p: Vec<u8>| p@);
    let mut out: Vec<TarEntry> = Vec::new();
    let n = entries.len();
    let mut i: usize = 0;
    proof {
        assert(entries@.map_values(|e: TarEntry| e@).take(0int) =~= Seq::<TarEntryV>::empty());
    }
    while i < n
        invariant
            n == entries.len(),
            i <= n,
            pv == pats@.map_values(|p: Vec<u8>| p@),
            out@.map_values(|e: TarEntry| e@) == keep_entries(
                entries@.map_values(|e: TarEntry| e@).take(i as int),
                pv,
            ),
        decreases n - i,
    {
        let e = &entries[i];
        let m = pats.len();
        let mut k: usize = 0;
        let mut hit = false;
        while k < m
            invariant
                m == pats.len(),
                k <= m,
                pv == pats@.map_values(|p: Vec<u8>| p@),
                hit ==> ignored(e.path@, pv),
                !hit ==> forall|j: int| 0 <= j < k ==> !matches_pattern(e.path@, #[trigger] pv[j]),
            decreases m - k,
        {
            if !hit {
                proof {
                    assert(pv[k as int] == pats@[k as int]@);
                }
                if matches_one(&e.path, &pats[k]) {
                    proof {
                        assert(matches_pattern(e.path@, pv[k as int]));
                    }
                    hit = true;
                }
            }
            k += 1;
        }
        let ghost evs = entries@.map_values(|x: TarEntry| x@);
        proof {
            assert(evs.take(i + 1) =~= evs.take(i as int).push(evs[i as int]));
            assert(evs.take(i + 1).drop_last() =~= evs.take(i as int));
            assert(evs.take(i + 1).last() == evs[i as int]);
            if !hit {
                assert(!ignored(e.path@, pv));
            }
        }
        if !hit {
            out.push(clone_entry(e));
            proof {
                assert(out@.map_values(|x: TarEntry| x@) =~= keep_entries(evs.take(i + 1), pv));
            }
        } else {
            proof {
                assert(out@.map_values(|x: TarEntry| x@) =~= keep_entries(evs.take(i + 1), pv));
            }
        }
        i += 1;
    }
    proof {
        let evs = entries@.map_values(|x: TarEntry| x@);
        assert(evs.take(n as int) =~= evs);
    }
    out
}

/// Filtering keeps only valid entries valid.
pub proof fn lemma_keep_entries_valid(es: Seq<TarEntryV>, pats: Seq<Seq<u8>>)
    requires
        forall|i: int| 0 <= i < es.len() ==> entry_valid(#[trigger] es[i]),
    ensures
        forall|i: int|
            0 <= i < keep_entries(es, pats).len() ==> entry_valid(
                #[trigger] keep_entries(es, pats)[i],
            ),
    decreases es.len(),
{
    if es.len() > 0 {
        assert(forall|i: int|
            0 <= i < es.drop_last().len() ==> entry_valid(#[trigger] es.drop_last()[i]));
        lemma_keep_entries_valid(es.drop_last(), pats);
        let k = keep_entries(es, pats);
        let k0 = keep_entries(es.drop_last(), pats);
        assert(entry_valid(es[es.len() - 1]));
        if !ignored(es.last().path, pats) {
            assert forall|i: int| 0 <= i < k.len() implies entry_valid(#[trigger] k[i]) by {
                if i < k0.len() {
                    assert(k[i] == k0[i]);
                } else {
                    assert(k[i] == es.last());
                }
            }
        }
    }
}

/// The build-context law: an archive built over any entry list and
/// ignore list reads back as exactly the entries the ignore list let
/// through — byte-identical contents, the same relative paths.
pub proof fn lemma_build_context_round_trip(es: Seq<TarEntryV>, pats: Seq<Seq<u8>>)
    requires
        forall|i: int| 0 <= i < es.len() ==> entry_valid(#[trigger] es[i]),
    ensures
        parse_entries(tar_bytes(keep_entries(es, pats))) == Some(keep_entries(es, pats)),
{
    lemma_keep_entries_valid(es, pats);
    lemma_tar_round_trip(keep_entries(es, pats));
}

/// What gzip with the default settings makes of a byte sequence. The
/// encoder writes no time stamp, so the output is a pure function of
/// the input.
pub uninterp spec fn gzip_of(b: Seq<u8>) -> Seq<u8>;

/// Relies on flate2::write::GzEncoder with the default compression
/// level: the default header has mtime zero and no name, so equal
/// input gives equal output. Writing into a Vec cannot fail, so
/// `finish` always succeeds.
#[verifier::external_body]
pub fn gzip(b: &Vec<u8>) -> (r: Vec<u8>)
    ensures
        r@ == gzip_of(b@),
{
    let mut enc = flate2::write::GzEncoder::new(Vec::new(), flate2::Compression::default());
    std::io::Write::write_all(&mut enc, b.as_slice()).expect("writing to a Vec cannot fail");
    enc.finish().expect("writing to a Vec cannot fail")
}

/// Serialize the surviving entries, optionally gzip-compressed, as a
/// build-context upload wants them.
pub fn build_context(entries: Vec<TarEntry>, pats: &Vec<Vec<u8>>, compress: bool) -> (r: Vec<u8>)
    requires
        forall|i: int| 0 <= i < entries@.len() ==> entry_valid((#[trigger] entries@[i])@),
    ensures
        ({
            let kept = keep_entries(
                entries@.map_values(|e: TarEntry| e@),
                pats@.map_values(|p: Vec<u8>| p@),
            );
            r@ == if compress {
                gzip_of(tar_bytes(kept))
            } else {
                tar_bytes(kept)
            }
        }),
{
    let ghost evs = entries@.map_values(|e: TarEntry| e@);
    let kept = filter_ignored(entries, pats);
    proof {
        lemma_keep_entries_valid(evs, pats@.map_values(|p: Vec<u8>| p@));
        let kv = kept@.map_values(|e: TarEntry| e@);
        assert(forall|i: int| 0 <= i < kv.len() ==> entry_valid(#[trigger] kv[i]));
        assert forall|i: int| 0 <= i < kept@.len() implies entry_valid(
            (#[trigger] kept@[i])@,
        ) by {
            assert(kv[i] == (kept@[i])@);
        }
    }
    let plain = tar_archive(&kept);
    if compress {
        gzip(&plain)
    } else {
        plain
    }
}

} // verus!
