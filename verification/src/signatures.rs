//! Signature detector: the buffer's leading bytes are held against a small
//! fixed table of magic-number prefixes, in a fixed check order. At most one
//! format label can fire, since no two prefixes are compatible.

use vstd::prelude::*;
use vstd::string::StringExecFns;

verus! {

/// Does `p` prefix `data`?
pub open spec fn has_prefix(data: Seq<u8>, p: Seq<u8>) -> bool {
    p.len() <= data.len() && data.subrange(0, p.len() as int) == p
}

/// The PNG magic prefix.
pub open spec fn png_magic() -> Seq<u8> {
    seq![0x89u8, 0x50u8, 0x4eu8, 0x47u8, 0x0du8, 0x0au8, 0x1au8, 0x0au8]
}

/// The GIF magic prefix (`GIF8`).
pub open spec fn gif_magic() -> Seq<u8> {
    seq![0x47u8, 0x49u8, 0x46u8, 0x38u8]
}

/// The PDF magic prefix (`%PDF`).
pub open spec fn pdf_magic() -> Seq<u8> {
    seq![0x25u8, 0x50u8, 0x44u8, 0x46u8]
}

/// The format labels of a buffer, in the fixed check order PNG, GIF, PDF.
pub open spec fn spec_signatures(data: Seq<u8>) -> Seq<Seq<char>> {
    let after_png = if has_prefix(data, png_magic()) {
        Seq::<Seq<char>>::empty().push("PNG"@)
    } else {
        Seq::<Seq<char>>::empty()
    };
    let after_gif = if has_prefix(data, gif_magic()) {
        after_png.push("GIF"@)
    } else {
        after_png
    };
    if has_prefix(data, pdf_magic()) {
        after_gif.push("PDF"@)
    } else {
        after_gif
    }
}

/// The label views of an executable signature list.
pub open spec fn labels_view(v: Seq<String>) -> Seq<Seq<char>> {
    v.map_values(|s: String| s@)
}

/// Does `prefix` prefix `data`?
fn starts_with(data: &Vec<u8>, prefix: &Vec<u8>) -> (r: bool)
    ensures
        r == has_prefix(data@, prefix@),
{
    if prefix.len() > data.len() {
        return false;
    }
    let k = prefix.len();
    let mut j: usize = 0;
    while j < k
        invariant
            k == prefix@.len(),
            k <= data@.len(),
            j <= k,
            forall|jj: int| 0 <= jj < j ==> #[trigger] data@[jj] == prefix@[jj],
        decreases k - j,
    {
        if data[j] != prefix[j] {
            proof {
                assert(data@.subrange(0, k as int)[j as int] != prefix@[j as int]);
            }
            return false;
        }
        j = j + 1;
    }
    proof {
        assert(data@.subrange(0, k as int) =~= prefix@);
    }
    true
}

/// Magic-number detection: the ordered list of format labels whose prefix
/// matches the start of the buffer. A buffer shorter than a prefix simply
/// fails that check; no label can appear twice.
pub fn detect_signatures(data: &Vec<u8>) -> (found: Vec<String>)
    ensures
        labels_view(found@) == spec_signatures(data@),
        found@.len() <= 3,
{
    let mut found: Vec<String> = Vec::new();
    let png: Vec<u8> = vec![0x89u8, 0x50u8, 0x4eu8, 0x47u8, 0x0du8, 0x0au8, 0x1au8, 0x0au8];
    let gif: Vec<u8> = vec![0x47u8, 0x49u8, 0x46u8, 0x38u8];
    let pdf: Vec<u8> = vec![0x25u8, 0x50u8, 0x44u8, 0x46u8];
    proof {
        assert(png@ =~= png_magic());
        assert(gif@ =~= gif_magic());
        assert(pdf@ =~= pdf_magic());
    }
    if starts_with(data, &png) {
        found.push(String::from_str("PNG"));
    }
    if starts_with(data, &gif) {
        found.push(String::from_str("GIF"));
    }
    if starts_with(data, &pdf) {
        found.push(String::from_str("PDF"));
    }
    proof {
        assert(labels_view(found@) =~= spec_signatures(data@));
    }
    found
}

} // verus!
