//! Binary `AndroidManifest.xml` patching: the application class name stored in
//! the manifest's UTF-16LE string pool is switched from the Pairip wrapper
//! back to the game's own application class.
use vstd::prelude::*;

verus! {

/// Little-endian bytes of a 16-bit code unit.
pub open spec fn le_bytes(u: u16) -> Seq<u8> {
    seq![(u % 256) as u8, (u / 256) as u8]
}

/// UTF-16LE bytes of one character: one code unit below U+10000, a surrogate
/// pair above.
pub open spec fn char_utf16le(c: char) -> Seq<u8> {
    let v = c as u32;
    if v < 0x10000 {
        le_bytes(v as u16)
    } else {
        let w = (v - 0x10000) as int;
        le_bytes((0xD800 + w / 0x400) as u16) + le_bytes((0xDC00 + w % 0x400) as u16)
    }
}

/// UTF-16LE encoding of a character sequence.
pub open spec fn utf16le_spec(s: Seq<char>) -> Seq<u8>
    decreases s.len(),
{
    if s.len() == 0 {
        Seq::empty()
    } else {
        utf16le_spec(s.drop_last()) + char_utf16le(s.last())
    }
}

/// Number of UTF-16 code units of a character sequence.
pub open spec fn utf16_unit_count(s: Seq<char>) -> int {
    utf16le_spec(s).len() as int / 2
}

/// Encodes `value` as UTF-16 and lays each code unit out little-endian.
pub fn utf16le(value: &str) -> (bytes: Vec<u8>)
    ensures
        bytes@ == utf16le_spec(value@),
{
    let chars = crate::text::chars_of(value);
    let mut out: Vec<u8> = Vec::new();
    let mut i: usize = 0;
    while i < chars.len()
        invariant
            chars@ == value@,
            i <= chars.len(),
            out@ == utf16le_spec(value@.take(i as int)),
        decreases chars.len() - i,
    {
        proof {
            assert(value@.take(i + 1).drop_last() =~= value@.take(i as int));
        }
        let c = chars[i];
        let v = c as u32;
        if v < 0x10000 {
            let u = v as u16;
            out.push((u % 256) as u8);
            out.push((u / 256) as u8);
        } else {
            let w = v - 0x10000;
            let hi = (0xD800 + w / 0x400) as u16;
            let lo = (0xDC00 + w % 0x400) as u16;
            out.push((hi % 256) as u8);
            out.push((hi / 256) as u8);
            out.push((lo % 256) as u8);
            out.push((lo / 256) as u8);
        }
        proof {
            assert(out@ =~= utf16le_spec(value@.take(i + 1)));
        }
        i = i + 1;
    }
    proof {
        assert(value@.take(chars.len() as int) =~= value@);
    }
    out
}

} // verus!

verus! {

/// Class name of the Pairip wrapper application.
pub open spec fn pairip_class() -> Seq<char> {
    "com.pairip.application.Application"@
}

/// Class name of the game's own application.
pub open spec fn game_class() -> Seq<char> {
    "com.DcSdk.DcApplication"@
}

/// Every character of `s` is ASCII.
pub open spec fn all_ascii(s: Seq<char>) -> bool {
    forall|i: int| 0 <= i < s.len() ==> (#[trigger] s[i] as u32) < 0x80
}

/// For ASCII text the UTF-16LE encoding is each byte followed by a zero.
#[verifier::spinoff_prover]
pub proof fn lemma_utf16le_ascii(s: Seq<char>)
    requires
        all_ascii(s),
    ensures
        utf16le_spec(s).len() == 2 * s.len(),
        forall|k: int|
            #![trigger s[k]]
            0 <= k < s.len() ==> utf16le_spec(s)[2 * k] as u32 == s[k] as u32 && utf16le_spec(s)[2
                * k + 1] == 0,
    decreases s.len(),
{
    if s.len() > 0 {
        let t = s.drop_last();
        assert(all_ascii(t)) by {
            assert forall|i: int| 0 <= i < t.len() implies (#[trigger] t[i] as u32) < 0x80 by {
                assert(t[i] == s[i]);
            }
        }
        lemma_utf16le_ascii(t);
        assert((s.last() as u32) < 0x80) by {
            assert(s.last() == s[s.len() - 1]);
        }
        let c = s.last();
        let v = c as u32;
        assert(((v as u16) % 256) as u8 as u32 == v && ((v as u16) / 256) as u8 == 0) by (bit_vector)
            requires v < 0x80;
        let e = utf16le_spec(s);
        assert(e =~= utf16le_spec(t) + char_utf16le(c));
        assert forall|k: int| #![trigger s[k]] 0 <= k < s.len() implies e[2 * k] as u32 == s[k] as u32 && e[2 * k
            + 1] == 0 by {
            if k < t.len() {
                assert(s[k] == t[k]);
            } else {
                assert(s[k] == c);
            }
        }
    }
}

proof fn lemma_class_names_ascii()
    ensures
        all_ascii(pairip_class()),
        all_ascii(game_class()),
        pairip_class().len() == 34,
        game_class().len() == 23,
{
    reveal_strlit("com.pairip.application.Application");
    reveal_strlit("com.DcSdk.DcApplication");
}

} // verus!

verus! {

/// `needle` occurs in `h` starting at byte `i`.
pub open spec fn occurs_at(h: Seq<u8>, needle: Seq<u8>, i: int) -> bool {
    &&& 0 <= i
    &&& i + needle.len() <= h.len()
    &&& h.subrange(i, i + needle.len()) == needle
}

/// Start offsets below `k` at which `needle` occurs in `h`, in increasing order.
pub open spec fn positions_below(h: Seq<u8>, needle: Seq<u8>, k: nat) -> Seq<int>
    decreases k,
{
    if k == 0 {
        Seq::empty()
    } else {
        let p = positions_below(h, needle, (k - 1) as nat);
        if occurs_at(h, needle, k - 1) {
            p.push(k - 1)
        } else {
            p
        }
    }
}

/// All start offsets at which `needle` occurs in `h`, in increasing order.
pub open spec fn match_positions(h: Seq<u8>, needle: Seq<u8>) -> Seq<int> {
    positions_below(h, needle, h.len())
}

fn occurs_at_exec(h: &[u8], needle: &[u8], i: usize) -> (b: bool)
    requires
        i <= h.len(),
    ensures
        b == occurs_at(h@, needle@, i as int),
{
    if needle.len() > h.len() - i {
        return false;
    }
    let mut j: usize = 0;
    while j < needle.len()
        invariant
            j <= needle.len(),
            i + needle.len() <= h.len(),
            forall|k: int| 0 <= k < j ==> h@[i + k] == needle@[k],
        decreases needle.len() - j,
    {
        if h[i + j] != needle[j] {
            assert(h@.subrange(i as int, i + needle.len())[j as int] != needle@[j as int]);
            return false;
        }
        j = j + 1;
    }
    assert(h@.subrange(i as int, i + needle.len()) =~= needle@);
    true
}

/// Offsets of every (possibly overlapping) occurrence of `needle` in
/// `haystack`, in increasing order.
pub fn match_offsets(haystack: &[u8], needle: &[u8]) -> (offsets: Vec<usize>)
    requires
        needle.len() > 0,
    ensures
        offsets@.len() == match_positions(haystack@, needle@).len(),
        forall|k: int|
            0 <= k < offsets@.len() ==> offsets@[k] as int == #[trigger] match_positions(
                haystack@,
                needle@,
            )[k],
{
    let mut offsets: Vec<usize> = Vec::new();
    let mut i: usize = 0;
    while i < haystack.len()
        invariant
            i <= haystack.len(),
            offsets@.len() == positions_below(haystack@, needle@, i as nat).len(),
            forall|k: int|
                0 <= k < offsets@.len() ==> offsets@[k] as int == #[trigger] positions_below(
                    haystack@,
                    needle@,
                    i as nat,
                )[k],
        decreases haystack.len() - i,
    {
        if occurs_at_exec(haystack, needle, i) {
            offsets.push(i);
        }
        i = i + 1;
        assert(positions_below(haystack@, needle@, i as nat) == (if occurs_at(
            haystack@,
            needle@,
            i - 1,
        ) {
            positions_below(haystack@, needle@, (i - 1) as nat).push(i - 1)
        } else {
            positions_below(haystack@, needle@, (i - 1) as nat)
        }));
    }
    offsets
}

} // verus!

verus! {

/// Every listed position is an occurrence below the bound, and the list is
/// strictly increasing.
pub proof fn lemma_positions_below(h: Seq<u8>, needle: Seq<u8>, k: nat)
    ensures
        forall|j: int|
            0 <= j < positions_below(h, needle, k).len() ==> occurs_at(
                h,
                needle,
                #[trigger] positions_below(h, needle, k)[j],
            ) && positions_below(h, needle, k)[j] < k,
        forall|a: int, b: int|
            0 <= a < b < positions_below(h, needle, k).len() ==> positions_below(h, needle, k)[a]
                < positions_below(h, needle, k)[b],
        forall|i: int|
            0 <= i < k && occurs_at(h, needle, i) ==> positions_below(h, needle, k).contains(i),
    decreases k,
{
    if k > 0 {
        lemma_positions_below(h, needle, (k - 1) as nat);
        let p = positions_below(h, needle, (k - 1) as nat);
        if occurs_at(h, needle, k - 1) {
            assert forall|i: int| 0 <= i < k && occurs_at(h, needle, i) implies positions_below(
                h,
                needle,
                k,
            ).contains(i) by {
                if i < k - 1 {
                    let j = choose|j: int| 0 <= j < p.len() && p[j] == i;
                    assert(p.push(k - 1)[j] == i);
                } else {
                    assert(p.push(k - 1)[p.len() as int] == i);
                }
            }
        }
    }
}

/// Result of restoring the application class.
#[derive(Debug, Clone, PartialEq, Eq)]
pub enum RestoreStatus {
    /// The Pairip class name was replaced by the game's class name.
    Restored,
    /// The manifest already names the game's class and no Pairip class.
    AlreadyRestored,
}

/// Why a manifest could not be restored.
#[derive(Debug, Clone, PartialEq, Eq)]
pub enum ManifestError {
    /// The manifest does not hold exactly one Pairip class name; the count found.
    UnexpectedPairipCount(usize),
    /// The Pairip class name is not laid out as a length-prefixed,
    /// NUL-terminated UTF-16 string-pool entry.
    UnsupportedLayout,
}

/// UTF-16LE bytes of the Pairip class name.
pub open spec fn pairip_pattern() -> Seq<u8> {
    utf16le_spec(pairip_class())
}

/// UTF-16LE bytes of the game's class name.
pub open spec fn game_pattern() -> Seq<u8> {
    utf16le_spec(game_class())
}

/// The Pairip name at `i` is a string-pool entry: preceded by its length in
/// code units (16-bit little-endian) and followed by a 16-bit NUL.
pub open spec fn supported_layout(m: Seq<u8>, i: int) -> bool {
    let old = pairip_pattern();
    &&& i >= 2
    &&& m[i - 2] as int + 256 * (m[i - 1] as int) == utf16_unit_count(pairip_class()) % 0x10000
    &&& i + old.len() + 2 <= m.len()
    &&& m[i + old.len()] == 0
    &&& m[i + old.len() + 1] == 0
}

/// `m` with the entry at `i` rewritten to the game's class name: new length
/// prefix, new characters, and zeros up to the end of the old terminator.
pub open spec fn restored_manifest(m: Seq<u8>, i: int) -> Seq<u8> {
    let old = pairip_pattern();
    let new = game_pattern();
    m.subrange(0, i - 2) + le_bytes((utf16_unit_count(game_class()) % 0x10000) as u16) + new
        + Seq::new((old.len() + 2 - new.len()) as nat, |k: int| 0u8) + m.subrange(
        i + old.len() + 2,
        m.len() as int,
    )
}

fn copy_bytes(b: &[u8]) -> (v: Vec<u8>)
    ensures
        v@ == b@,
{
    let mut v: Vec<u8> = Vec::new();
    let mut i: usize = 0;
    while i < b.len()
        invariant
            i <= b.len(),
            v@ == b@.take(i as int),
        decreases b.len() - i,
    {
        v.push(b[i]);
        i = i + 1;
        assert(v@ =~= b@.take(i as int));
    }
    assert(b@.take(b.len() as int) =~= b@);
    v
}

/// Outcome of restoring the application class of manifest `m`.
pub open spec fn restore_spec(m: Seq<u8>) -> Result<(Seq<u8>, RestoreStatus), ManifestError> {
    let om = match_positions(m, pairip_pattern());
    let nm = match_positions(m, game_pattern());
    if om.len() == 0 && nm.len() == 1 {
        Ok((m, RestoreStatus::AlreadyRestored))
    } else if om.len() != 1 {
        Err(ManifestError::UnexpectedPairipCount(om.len() as usize))
    } else if !supported_layout(m, om[0]) {
        Err(ManifestError::UnsupportedLayout)
    } else {
        Ok((restored_manifest(m, om[0]), RestoreStatus::Restored))
    }
}

/// Switches the manifest's application class from the Pairip wrapper to the
/// game's class, or reports that it is already switched.
pub fn restore_game_application(manifest: &[u8]) -> (r: Result<(Vec<u8>, RestoreStatus), ManifestError>)
    ensures
        match restore_spec(manifest@) {
            Ok((bytes, status)) => r matches Ok((v, st)) && v@ == bytes && st == status,
            Err(e) => r matches Err(e2) && e2 == e,
        },
{
    let old = utf16le("com.pairip.application.Application");
    let new = utf16le("com.DcSdk.DcApplication");
    proof {
        lemma_class_names_ascii();
        lemma_utf16le_ascii(pairip_class());
        lemma_utf16le_ascii(game_class());
        lemma_positions_below(manifest@, old@, manifest@.len());
    }
    let old_matches = match_offsets(manifest, &old);
    let new_matches = match_offsets(manifest, &new);
    if old_matches.len() == 0 && new_matches.len() == 1 {
        return Ok((copy_bytes(manifest), RestoreStatus::AlreadyRestored));
    }
    if old_matches.len() != 1 {
        return Err(ManifestError::UnexpectedPairipCount(old_matches.len()));
    }
    let index = old_matches[0];
    let ghost om = match_positions(manifest@, old@);
    assert(occurs_at(manifest@, old@, om[0]));
    let old_units: u16 = (old.len() / 2) as u16;
    if index < 2 {
        return Err(ManifestError::UnsupportedLayout);
    }
    let stored: u16 = manifest[index - 2] as u16 + (manifest[index - 1] as u16) * 256;
    if stored != old_units || manifest.len() - (index + old.len()) < 2 {
        return Err(ManifestError::UnsupportedLayout);
    }
    if manifest[index + old.len()] != 0 || manifest[index + old.len() + 1] != 0 {
        return Err(ManifestError::UnsupportedLayout);
    }
    let mut patched = copy_bytes(manifest);
    let new_units: u16 = (new.len() / 2) as u16;
    patched.set(index - 2, (new_units % 256) as u8);
    patched.set(index - 1, (new_units / 256) as u8);
    let mut k: usize = 0;
    while k < new.len()
        invariant
            new@ == game_pattern(),
            new@.len() == 46,
            old@.len() == 68,
            2 <= index,
            index + 70 <= manifest.len(),
            k <= new.len(),
            patched@.len() == manifest@.len(),
            patched@[index - 2] == (new_units % 256) as u8,
            patched@[index - 1] == (new_units / 256) as u8,
            forall|p: int| 0 <= p < index - 2 ==> patched@[p] == manifest@[p],
            forall|p: int| index + k <= p < manifest@.len() ==> patched@[p] == manifest@[p],
            forall|p: int| 0 <= p < k ==> patched@[index + p] == new@[p],
        decreases new.len() - k,
    {
        patched.set(index + k, new[k]);
        k = k + 1;
    }
    while k < old.len() + 2
        invariant
            new@ == game_pattern(),
            new@.len() == 46,
            old@.len() == 68,
            2 <= index,
            index + 70 <= manifest.len(),
            46 <= k <= 70,
            patched@.len() == manifest@.len(),
            patched@[index - 2] == (new_units % 256) as u8,
            patched@[index - 1] == (new_units / 256) as u8,
            forall|p: int| 0 <= p < index - 2 ==> patched@[p] == manifest@[p],
            forall|p: int| index + k <= p < manifest@.len() ==> patched@[p] == manifest@[p],
            forall|p: int| 0 <= p < 46 ==> patched@[index + p] == new@[p],
            forall|p: int| 46 <= p < k ==> #[trigger] patched@[index + p] == 0,
        decreases old.len() + 2 - k,
    {
        patched.set(index + k, 0);
        k = k + 1;
    }
    proof {
        let r = restored_manifest(manifest@, index as int);
        let i = index as int;
        let head = manifest@.subrange(0, i - 2);
        let len_bytes = le_bytes((utf16_unit_count(game_class()) % 0x10000) as u16);
        let zeros = Seq::new((old@.len() + 2 - new@.len()) as nat, |k: int| 0u8);
        let tail = manifest@.subrange(i + 70, manifest@.len() as int);
        assert(utf16_unit_count(game_class()) == 23);
        assert(r == head + len_bytes + new@ + zeros + tail);
        assert forall|p: int| 0 <= p < manifest@.len() implies #[trigger] patched@[p] == r[p] by {
            if p < i - 2 {
                assert(r[p] == head[p]);
            } else if p < i {
                assert(r[p] == len_bytes[p - (i - 2)]);
            } else if p < i + 46 {
                assert(r[p] == new@[p - i]);
                assert(patched@[i + (p - i)] == new@[p - i]);
            } else if p < i + 70 {
                assert(r[p] == zeros[p - i - 46]);
                assert(patched@[i + (p - i)] == 0);
            } else {
                assert(r[p] == tail[p - (i + 70)]);
            }
        }
        assert(patched@ =~= r);
    }
    Ok((patched, RestoreStatus::Restored))
}

} // verus!

verus! {

proof fn lemma_class_chars()
    ensures
        pairip_class() == seq![
            'c', 'o', 'm', '.', 'p', 'a', 'i', 'r', 'i', 'p', '.', 'a', 'p', 'p', 'l', 'i', 'c', 'a',
            't', 'i', 'o', 'n', '.', 'A', 'p', 'p', 'l', 'i', 'c', 'a', 't', 'i', 'o', 'n',
        ],
        game_class() == seq![
            'c', 'o', 'm', '.', 'D', 'c', 'S', 'd', 'k', '.', 'D', 'c', 'A', 'p', 'p', 'l', 'i', 'c',
            'a', 't', 'i', 'o', 'n',
        ],
{
    reveal_strlit("com.pairip.application.Application");
    reveal_strlit("com.DcSdk.DcApplication");
    assert(pairip_class() =~= seq![
        'c', 'o', 'm', '.', 'p', 'a', 'i', 'r', 'i', 'p', '.', 'a', 'p', 'p', 'l', 'i', 'c', 'a',
        't', 'i', 'o', 'n', '.', 'A', 'p', 'p', 'l', 'i', 'c', 'a', 't', 'i', 'o', 'n',
    ]);
    assert(game_class() =~= seq![
        'c', 'o', 'm', '.', 'D', 'c', 'S', 'd', 'k', '.', 'D', 'c', 'A', 'p', 'p', 'l', 'i', 'c',
        'a', 't', 'i', 'o', 'n',
    ]);
}

/// Byte facts about the two patterns that the layout arguments below use.
proof fn lemma_pattern_bytes()
    ensures
        pairip_pattern().len() == 68,
        game_pattern().len() == 46,
        forall|o: int| 0 <= o < 68 ==> #[trigger] pairip_pattern()[o] != 23,
        forall|o: int| 0 <= o < 46 ==> #[trigger] game_pattern()[o] != 23,
        forall|o: int| 0 <= o < 34 ==> #[trigger] pairip_pattern()[2 * o + 1] == 0,
        forall|o: int| 0 <= o < 23 ==> #[trigger] game_pattern()[2 * o + 1] == 0,
        pairip_pattern()[0] == 0x63,
        pairip_pattern()[2] == 0x6f,
        pairip_pattern()[8] == 0x70,
        game_pattern()[0] == 0x63,
        game_pattern()[2] == 0x6f,
        game_pattern()[8] == 0x44,
        forall|j: int|
            0 <= j < 23 && j != 0 && j != 5 && j != 11 && j != 17 ==> #[trigger] game_pattern()[2
                * j] != 0x63,
        game_pattern()[10] == 0x63,
        game_pattern()[12] == 0x53,
        game_pattern()[24] == 0x41,
        game_pattern()[36] == 0x61,
        game_pattern()[22] == 0x63,
        game_pattern()[34] == 0x63,
{
    lemma_class_names_ascii();
    lemma_class_chars();
    lemma_utf16le_ascii(pairip_class());
    lemma_utf16le_ascii(game_class());
    let p = pairip_pattern();
    let g = game_pattern();
    assert forall|o: int| 0 <= o < 68 implies #[trigger] p[o] != 23 by {
        let k = o / 2;
        if o % 2 == 0 {
            assert(o == 2 * k);
            assert(p[2 * k] as u32 == pairip_class()[k] as u32);
        } else {
            assert(o == 2 * k + 1);
            assert(p[2 * k + 1] == 0);
        }
    }
    assert forall|o: int| 0 <= o < 46 implies #[trigger] g[o] != 23 by {
        let k = o / 2;
        if o % 2 == 0 {
            assert(o == 2 * k);
            assert(g[2 * k] as u32 == game_class()[k] as u32);
        } else {
            assert(o == 2 * k + 1);
            assert(g[2 * k + 1] == 0);
        }
    }
    assert(p[2 * 0int] as u32 == pairip_class()[0int] as u32);
    assert(p[2 * 1int] as u32 == pairip_class()[1int] as u32);
    assert(p[2 * 4int] as u32 == pairip_class()[4int] as u32);
    assert(g[2 * 0int] as u32 == game_class()[0int] as u32);
    assert(g[2 * 1int] as u32 == game_class()[1int] as u32);
    assert(g[2 * 4int] as u32 == game_class()[4int] as u32);
    assert(g[2 * 6int] as u32 == game_class()[6int] as u32);
    assert(g[2 * 5int] as u32 == game_class()[5int] as u32);
    assert(g[2 * 12int] as u32 == game_class()[12int] as u32);
    assert(g[2 * 18int] as u32 == game_class()[18int] as u32);
    assert(g[2 * 11int] as u32 == game_class()[11int] as u32);
    assert(g[2 * 17int] as u32 == game_class()[17int] as u32);
    assert forall|j: int| 0 <= j < 23 && j != 0 && j != 5 && j != 11 && j != 17 implies #[trigger] g[2
        * j] != 0x63 by {
        assert(g[2 * j] as u32 == game_class()[j] as u32);
    }
}

} // verus!

verus! {

proof fn lemma_restored_bytes(m: Seq<u8>, i: int)
    requires
        occurs_at(m, pairip_pattern(), i),
        supported_layout(m, i),
    ensures
        ({
            let r = restored_manifest(m, i);
            &&& r.len() == m.len()
            &&& r[i - 2] == 23
            &&& r[i - 1] == 0
            &&& forall|j: int| 0 <= j < 46 ==> #[trigger] r[i + j] == game_pattern()[j]
            &&& forall|j: int| 46 <= j < 70 ==> #[trigger] r[i + j] == 0
            &&& forall|q: int|
                0 <= q < m.len() && (q < i - 2 || q >= i + 70) ==> #[trigger] r[q] == m[q]
        }),
{
    lemma_pattern_bytes();
    lemma_class_names_ascii();
    lemma_utf16le_ascii(game_class());
    let r = restored_manifest(m, i);
    let head = m.subrange(0, i - 2);
    let len_bytes = le_bytes((utf16_unit_count(game_class()) % 0x10000) as u16);
    let zeros = Seq::new(24, |k: int| 0u8);
    let tail = m.subrange(i + 70, m.len() as int);
    assert(utf16_unit_count(game_class()) == 23);
    assert(r =~= head + len_bytes + game_pattern() + zeros + tail);
    assert forall|j: int| 0 <= j < 46 implies #[trigger] r[i + j] == game_pattern()[j] by {
        assert(r[i + j] == (head + len_bytes + game_pattern())[i + j]);
    }
    assert forall|j: int| 46 <= j < 70 implies #[trigger] r[i + j] == 0 by {
        assert(r[i + j] == (head + len_bytes + game_pattern() + zeros)[i + j]);
        assert(zeros[j - 46] == 0);
    }
    assert forall|q: int| 0 <= q < m.len() && (q < i - 2 || q >= i + 70) implies #[trigger] r[q]
        == m[q] by {
        if q < i - 2 {
            assert(r[q] == head[q]);
        } else {
            assert(r[q] == tail[q - (i + 70)]);
        }
    }
}

proof fn lemma_occurs_byte(h: Seq<u8>, needle: Seq<u8>, p: int, o: int)
    requires
        occurs_at(h, needle, p),
        0 <= o < needle.len(),
    ensures
        h[p + o] == needle[o],
{
    assert(h.subrange(p, p + needle.len())[o] == h[p + o]);
}

proof fn lemma_unchanged_window(m: Seq<u8>, r: Seq<u8>, needle: Seq<u8>, p: int, lo: int, hi: int)
    requires
        r.len() == m.len(),
        forall|q: int| 0 <= q < m.len() && (q < lo || q >= hi) ==> #[trigger] r[q] == m[q],
        p + needle.len() <= lo || p >= hi,
    ensures
        occurs_at(r, needle, p) == occurs_at(m, needle, p),
{
    if 0 <= p && p + needle.len() <= m.len() {
        assert(r.subrange(p, p + needle.len()) =~= m.subrange(p, p + needle.len()));
    }
}

/// With no occurrence, no positions are listed; with exactly one, exactly
/// that one is.
proof fn lemma_position_count(h: Seq<u8>, needle: Seq<u8>)
    requires
        needle.len() > 0,
    ensures
        (forall|p: int| !#[trigger] occurs_at(h, needle, p)) ==> match_positions(h, needle).len()
            == 0,
        forall|i: int|
            #![trigger occurs_at(h, needle, i)]
            occurs_at(h, needle, i) && (forall|p: int| #[trigger] occurs_at(h, needle, p) ==> p == i)
                ==> match_positions(h, needle) == seq![i],
{
    lemma_positions_below(h, needle, h.len());
    let ps = match_positions(h, needle);
    if ps.len() > 0 {
        assert(occurs_at(h, needle, ps[0]));
    }
    assert forall|i: int|
        #![trigger occurs_at(h, needle, i)]
        occurs_at(h, needle, i) && (forall|p: int| #[trigger] occurs_at(h, needle, p) ==> p == i)
            implies ps == seq![i] by {
        assert(i < h.len());
        assert(ps.contains(i));
        if ps.len() > 1 {
            assert(occurs_at(h, needle, ps[0]));
            assert(occurs_at(h, needle, ps[1]));
            assert(ps[0] < ps[1]);
        }
        assert(ps =~= seq![i]);
    }
}

/// Restoring a manifest that held the Pairip class and not the game's class
/// settles it: restoring the result again reports it already restored and
/// leaves it as it is.
pub proof fn law_restore_settles(m: Seq<u8>)
    requires
        restore_spec(m) matches Ok((_, RestoreStatus::Restored)),
        match_positions(m, game_pattern()).len() == 0,
    ensures
        restore_spec(restore_spec(m)->Ok_0.0) == Ok::<(Seq<u8>, RestoreStatus), ManifestError>(
            (restore_spec(m)->Ok_0.0, RestoreStatus::AlreadyRestored),
        ),
{
    let pp = pairip_pattern();
    let gp = game_pattern();
    let om = match_positions(m, pp);
    lemma_positions_below(m, pp, m.len());
    lemma_positions_below(m, gp, m.len());
    let i = om[0];
    assert(occurs_at(m, pp, i));
    lemma_pattern_bytes();
    lemma_restored_bytes(m, i);
    let r = restored_manifest(m, i);
    assert(restore_spec(m)->Ok_0.0 == r);
    // the only Pairip occurrence of `m` is at `i`
    assert forall|q: int| occurs_at(m, pp, q) implies q == i by {
        assert(0 <= q < m.len());
        assert(om.contains(q));
    }
    assert forall|q: int| !occurs_at(m, gp, q) by {
        if occurs_at(m, gp, q) {
            assert(match_positions(m, gp).contains(q));
        }
    }
    assert forall|p: int| !#[trigger] occurs_at(r, pp, p) by {
        if occurs_at(r, pp, p) {
            let d = p - i;
            if p + 68 <= i - 2 || p >= i + 70 {
                lemma_unchanged_window(m, r, pp, p, i - 2, i + 70);
            } else if d <= -2 {
                lemma_occurs_byte(r, pp, p, -2 - d);
            } else if d == -1 {
                lemma_occurs_byte(r, pp, p, 0);
            } else if d == 0 {
                lemma_occurs_byte(r, pp, p, 8);
                assert(r[i + 8] == gp[8]);
            } else if d >= 46 {
                lemma_occurs_byte(r, pp, p, 0);
                assert(r[i + d] == 0);
            } else if d % 2 == 1 {
                lemma_occurs_byte(r, pp, p, 0);
                assert(r[i + d] == gp[d]);
                assert(gp[2 * (d / 2) + 1] == 0);
            } else if d == 10 || d == 22 || d == 34 {
                lemma_occurs_byte(r, pp, p, 2);
                assert(r[i + (d + 2)] == gp[d + 2]);
            } else {
                lemma_occurs_byte(r, pp, p, 0);
                assert(r[i + d] == gp[d]);
                assert(gp[2 * (d / 2)] != 0x63);
            }
        }
    }
    assert(occurs_at(r, gp, i)) by {
        assert(r.subrange(i, i + 46) =~= gp);
    }
    assert forall|p: int| #[trigger] occurs_at(r, gp, p) implies p == i by {
        let d = p - i;
        if p + 46 <= i - 2 || p >= i + 70 {
            lemma_unchanged_window(m, r, gp, p, i - 2, i + 70);
        } else if d <= -2 {
            lemma_occurs_byte(r, gp, p, -2 - d);
        } else if d == -1 {
            lemma_occurs_byte(r, gp, p, 0);
        } else if d == 0 {
        } else if d >= 46 {
            lemma_occurs_byte(r, gp, p, 0);
            assert(r[i + d] == 0);
        } else if d % 2 == 1 {
            lemma_occurs_byte(r, gp, p, 0);
            assert(r[i + d] == gp[d]);
            assert(gp[2 * (d / 2) + 1] == 0);
        } else if d == 10 || d == 22 || d == 34 {
            lemma_occurs_byte(r, gp, p, 2);
            assert(r[i + (d + 2)] == gp[d + 2]);
        } else {
            lemma_occurs_byte(r, gp, p, 0);
            assert(r[i + d] == gp[d]);
            assert(gp[2 * (d / 2)] != 0x63);
        }
    }
    lemma_position_count(r, pp);
    lemma_position_count(r, gp);
}

} // verus!

verus! {

impl RestoreStatus {
    /// What was done, for the user.
    pub fn message(&self) -> (m: String)
        ensures
            m@ == match self {
                RestoreStatus::Restored => "restored to com.DcSdk.DcApplication"@,
                RestoreStatus::AlreadyRestored => "already set to com.DcSdk.DcApplication"@,
            },
    {
        match self {
            RestoreStatus::Restored => crate::text::string_of("restored to com.DcSdk.DcApplication"),
            RestoreStatus::AlreadyRestored => crate::text::string_of(
                "already set to com.DcSdk.DcApplication",
            ),
        }
    }
}

impl ManifestError {
    /// The error, for the user.
    pub fn message(&self) -> (m: String)
        ensures
            m@ == match self {
                ManifestError::UnexpectedPairipCount(n) =>
                    "expected one Pairip application class in AndroidManifest.xml, found "@
                        + crate::text::decimal(*n as nat),
                ManifestError::UnsupportedLayout =>
                    "unsupported AndroidManifest.xml string-pool layout"@,
            },
    {
        match self {
            ManifestError::UnexpectedPairipCount(n) => {
                let mut m = crate::text::string_of(
                    "expected one Pairip application class in AndroidManifest.xml, found ",
                );
                crate::text::push_decimal(&mut m, *n as u64);
                m
            },
            ManifestError::UnsupportedLayout => crate::text::string_of(
                "unsupported AndroidManifest.xml string-pool layout",
            ),
        }
    }
}

} // verus!

verus! {

/// Restoring never changes the manifest's size: the new class name and its
/// padding take exactly the old entry's place.
pub proof fn law_restore_keeps_size(m: Seq<u8>)
    requires
        restore_spec(m) is Ok,
    ensures
        restore_spec(m)->Ok_0.0.len() == m.len(),
{
    let om = match_positions(m, pairip_pattern());
    if !(om.len() == 0 && match_positions(m, game_pattern()).len() == 1) {
        lemma_positions_below(m, pairip_pattern(), m.len());
        lemma_pattern_bytes();
        assert(occurs_at(m, pairip_pattern(), om[0]));
        lemma_restored_bytes(m, om[0]);
    }
}

} // verus!
