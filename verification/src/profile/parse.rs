//! The files that a profile consists of.
use crate::text;
use vstd::prelude::*;

verus! {

/// Whether `s` ends with `suffix`.
pub open spec fn ends_with(s: Seq<char>, suffix: Seq<char>) -> bool {
    suffix.len() <= s.len() && s.skip(s.len() - suffix.len()) == suffix
}

/// Whether `s` ends with `suffix`.
fn has_suffix(s: &Vec<char>, suffix: &Vec<char>) -> (r: bool)
    ensures
        r == ends_with(s@, suffix@),
{
    if suffix.len() > s.len() {
        return false;
    }
    let tail = text::slice_chars(s, s.len() - suffix.len(), s.len());
    assert(tail@ =~= s@.skip(s@.len() - suffix@.len()));
    let mut i: usize = 0;
    while i < tail.len()
        invariant
            i <= tail@.len() == suffix@.len(),
            tail@ == s@.skip(s@.len() - suffix@.len()),
            suffix@.len() <= s@.len(),
            forall|k: int| 0 <= k < i ==> tail@[k] == suffix@[k],
        decreases tail@.len() - i,
    {
        if tail[i] != suffix[i] {
            return false;
        }
        i += 1;
    }
    assert(tail@ =~= suffix@);
    true
}

/// Whether a profile file is compressed, by its name.
pub fn is_gzip_path(path: &str) -> (r: bool)
    ensures
        r == (ends_with(path@, ".gz"@) || ends_with(path@, ".gzip"@)),
{
    let chars = text::chars_of(path);
    has_suffix(&chars, &text::chars_of(".gz")) || has_suffix(&chars, &text::chars_of(".gzip"))
}

/// The name of the symbol sidecar next to a profile: `profile.json.gz` has
/// `profile.json.syms.json`.
pub open spec fn sidecar_name(file_name: Seq<char>) -> Seq<char> {
    if ends_with(file_name, ".gz"@) {
        file_name.take(file_name.len() - ".gz"@.len()) + ".syms.json"@
    } else {
        file_name + ".syms.json"@
    }
}

/// The name of the symbol sidecar next to a profile.
pub fn syms_sidecar_name(file_name: &str) -> (r: String)
    ensures
        r@ == sidecar_name(file_name@),
{
    let chars = text::chars_of(file_name);
    let suffix = text::chars_of(".gz");
    let end: usize = if has_suffix(&chars, &suffix) {
        chars.len() - suffix.len()
    } else {
        chars.len()
    };
    let stem = text::slice_chars(&chars, 0, end);
    assert(stem@ =~= file_name@.take(end as int));
    assert(file_name@.take(file_name@.len() as int) =~= file_name@);
    let mut name = text::string_of(&stem);
    text::push_text(&mut name, ".syms.json");
    name
}

/// A compressed profile and the same profile uncompressed share one symbol
/// file, whose name is that of the profile with an ending.
pub proof fn law_compression_does_not_matter(name: Seq<char>)
    requires
        !ends_with(name, ".gz"@),
    ensures
        sidecar_name(name + ".gz"@) == sidecar_name(name),
        sidecar_name(name) == name + ".syms.json"@,
{
    let zipped = name + ".gz"@;
    let n = ".gz"@.len() as int;
    assert(zipped.skip(zipped.len() - n) =~= ".gz"@);
    assert(zipped.take(zipped.len() - n) =~= name);
}

}
