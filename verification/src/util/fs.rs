//! File names: which of them are taken for photos.
use crate::util::bytes::copy_bytes;
use vstd::prelude::*;

verus! {

/// The byte that separates the components of a path.
pub const SEPARATOR: u8 = 0x2f;

/// The byte of a dot, which stands before the extension of a file name.
pub const DOT: u8 = 0x2e;

/// The place of the last byte `b` in `s`, or -1 where it has none.
pub open spec fn last_of(s: Seq<u8>, b: u8) -> int
    decreases s.len(),
{
    if s.len() == 0 {
        -1
    } else if s.last() == b {
        s.len() - 1
    } else {
        last_of(s.drop_last(), b)
    }
}

/// The last component of a path: what stands behind its last separator.
pub open spec fn name_of(path: Seq<u8>) -> Seq<u8> {
    path.subrange(last_of(path, SEPARATOR) + 1, path.len() as int)
}

/// The extension of a file name: what stands behind its last dot. A name
/// without a dot has none, nor has the name `..`, nor a name whose only dot
/// is its first byte.
pub open spec fn extension_of(name: Seq<u8>) -> Option<Seq<u8>> {
    let dot = last_of(name, DOT);
    if dot <= 0 || name == seq![DOT, DOT] {
        None
    } else {
        Some(name.subrange(dot + 1, name.len() as int))
    }
}

/// The upper-case form of an ASCII letter; any other byte stands for itself.
pub open spec fn upper(b: u8) -> u8 {
    if 0x61 <= b <= 0x7a {
        (b - 0x20) as u8
    } else {
        b
    }
}

/// Whether `text` is `word` but for the case of its ASCII letters; `word` is
/// in upper case.
pub open spec fn spells(text: Seq<u8>, word: Seq<u8>) -> bool {
    text.len() == word.len() && forall|i: int| 0 <= i < text.len() ==> upper(text[i]) == word[i]
}

/// The extension `JPG`.
pub open spec fn jpg() -> Seq<u8> {
    seq![0x4au8, 0x50u8, 0x47u8]
}

/// The extension `JPEG`.
pub open spec fn jpeg() -> Seq<u8> {
    seq![0x4au8, 0x50u8, 0x45u8, 0x47u8]
}

/// Whether a path names a photo of a supported kind: the extension of its
/// last component is `jpg` or `jpeg`, in any case.
pub open spec fn supported(path: Seq<u8>) -> bool {
    match extension_of(name_of(path)) {
        Some(ext) => spells(ext, jpg()) || spells(ext, jpeg()),
        None => false,
    }
}

/// Where the last byte `b` stands: at a place that holds it, behind which
/// none does.
pub proof fn lemma_last_of(s: Seq<u8>, b: u8)
    ensures
        -1 <= last_of(s, b) < s.len(),
        last_of(s, b) >= 0 ==> s[last_of(s, b)] == b,
        forall|i: int| last_of(s, b) < i < s.len() ==> s[i] != b,
    decreases s.len(),
{
    if s.len() > 0 && s.last() != b {
        lemma_last_of(s.drop_last(), b);
        assert forall|i: int| last_of(s, b) < i < s.len() implies s[i] != b by {
            if i < s.len() - 1 {
                assert(s.drop_last()[i] == s[i]);
            }
        }
    }
}

/// The place of the last byte `b` at or behind `from`, or `None`.
pub fn find_last(s: &[u8], from: usize, b: u8) -> (at: Option<usize>)
    requires
        from <= s@.len(),
    ensures
        match at {
            Some(i) => from <= i < s@.len() && i == last_of(s@, b),
            None => last_of(s@, b) < from,
        },
{
    let mut i: usize = s.len();
    proof {
        assert(s@.subrange(0, i as int) =~= s@);
    }
    while i > from
        invariant
            from <= i <= s.len(),
            last_of(s@, b) == last_of(s@.subrange(0, i as int), b),
        decreases i,
    {
        if s[i - 1] == b {
            return Some(i - 1);
        }
        proof {
            assert(s@.subrange(0, i as int).drop_last() =~= s@.subrange(0, i - 1));
        }
        i -= 1;
    }
    proof {
        lemma_last_of(s@.subrange(0, i as int), b);
    }
    None
}

fn upper_of(b: u8) -> (u: u8)
    ensures
        u == upper(b),
{
    if 0x61 <= b && b <= 0x7a {
        b - 0x20
    } else {
        b
    }
}

/// Whether the bytes from `from` on spell a word of three or four letters.
fn spells_from(s: &[u8], from: usize, word: &[u8]) -> (yes: bool)
    requires
        from <= s@.len(),
    ensures
        yes == spells(s@.subrange(from as int, s@.len() as int), word@),
{
    let ghost text = s@.subrange(from as int, s@.len() as int);
    if s.len() - from != word.len() {
        return false;
    }
    let mut i: usize = 0;
    while i < word.len()
        invariant
            i <= word.len(),
            from <= s@.len(),
            s@.len() - from == word@.len(),
            text == s@.subrange(from as int, s@.len() as int),
            forall|j: int| 0 <= j < i ==> upper(text[j]) == word@[j],
        decreases word.len() - i,
    {
        assert(from + i < s.len());
        if upper_of(s[from + i]) != word[i] {
            proof {
                assert(text[i as int] == s@[from + i]);
            }
            return false;
        }
        proof {
            assert(text[i as int] == s@[from + i]);
        }
        i += 1;
    }
    true
}

/// The place where the extension of the last component of a path starts.
fn locate_extension(path: &[u8]) -> (at: Option<usize>)
    ensures
        match extension_of(name_of(path@)) {
            Some(ext) => at is Some && at->0 <= path@.len() && ext == path@.subrange(
                at->0 as int,
                path@.len() as int,
            ),
            None => at is None,
        },
{
    let start = match find_last(path, 0, SEPARATOR) {
        Some(at) => {
            assert(at < path.len());
            at + 1
        },
        None => 0,
    };
    let ghost name = name_of(path@);
    proof {
        lemma_last_of(path@, SEPARATOR);
        assert(name == path@.subrange(start as int, path@.len() as int));
    }
    let name_bytes = vstd::slice::slice_subrange(path, start, path.len());
    if name_bytes.len() == 0 {
        return None;
    }
    if name_bytes.len() == 2 && name_bytes[0] == DOT && name_bytes[1] == DOT {
        proof {
            assert(name =~= seq![DOT, DOT]);
        }
        return None;
    }
    let dot = match find_last(name_bytes, 1, DOT) {
        Some(at) => at,
        None => {
            return None;
        },
    };
    proof {
        if name == seq![DOT, DOT] {
            assert(name.len() == 2);
            assert(name[0] == DOT && name[1] == DOT);
        }
        assert(name.subrange(dot + 1, name.len() as int) =~= path@.subrange(
            start + dot + 1,
            path@.len() as int,
        ));
    }
    Some(start + dot + 1)
}

/// The extension of the last component of a path.
pub fn name_extension(path: &[u8]) -> (ext: Option<Vec<u8>>)
    ensures
        match extension_of(name_of(path@)) {
            Some(e) => ext is Some && ext->0@ == e,
            None => ext is None,
        },
{
    match locate_extension(path) {
        Some(at) => Some(copy_bytes(vstd::slice::slice_subrange(path, at, path.len()))),
        None => None,
    }
}

/// Whether a path names a photo of a supported kind.
pub fn is_supported_image(path: &[u8]) -> (yes: bool)
    ensures
        yes == supported(path@),
{
    let at = match locate_extension(path) {
        Some(at) => at,
        None => {
            return false;
        },
    };
    let jpg: [u8; 3] = [0x4a, 0x50, 0x47];
    let jpeg: [u8; 4] = [0x4a, 0x50, 0x45, 0x47];
    proof {
        assert(jpg@ =~= self::jpg());
        assert(jpeg@ =~= self::jpeg());
    }
    spells_from(path, at, jpg.as_slice()) || spells_from(path, at, jpeg.as_slice())
}

} // verus!
