//! File names.

use vstd::prelude::*;

use crate::number::is_all_digits;
use crate::text::{chars_of, find_last, matches_at};

verus! {

/// The part of a file name before its extension, and the extension. A name without
/// a dot, or with none but the one it begins with, has no extension.
pub open spec fn split_name(name: Seq<char>) -> (Seq<char>, Option<Seq<char>>) {
    match crate::text::last_index(name, '.') {
        Some(i) => if i == 0 || name == seq!['.', '.'] {
            (name, None)
        } else {
            (name.take(i), Some(name.skip(i + 1)))
        },
        None => (name, None),
    }
}

/// The part of `name` before the extension, if the extension is `ext`.
pub open spec fn stem_of(name: Seq<char>, ext: Seq<char>) -> Option<Seq<char>> {
    if split_name(name).1 == Some(ext) {
        Some(split_name(name).0)
    } else {
        None
    }
}

/// The part of `name` before the extension, if the extension is `ext`.
pub fn stem<'a>(name: &'a [char], ext: &str) -> (r: Option<&'a [char]>)
    ensures
        r is Some <==> stem_of(name@, ext@) is Some,
        r matches Some(t) ==> stem_of(name@, ext@) == Some(t@),
{
    let want: Vec<char> = chars_of(ext);
    proof {
        crate::text::lemma_last_index(name@, '.');
    }
    match find_last(name, '.') {
        None => None,
        Some(i) => {
            let dots: bool = name.len() == 2 && name[0] == '.' && name[1] == '.';
            assert(dots ==> name@ =~= seq!['.', '.']);
            assert(name@ == seq!['.', '.'] ==> name@[0] == '.' && name@[1] == '.');
            if i == 0 || dots {
                return None;
            }
            let have: &'a [char] = &name[i + 1..name.len()];
            assert(have@ == name@.skip(i + 1));
            assert(have@.subrange(0, have@.len() as int) == have@);
            if have.len() == want.len() && matches_at(have, want.as_slice(), 0) {
                let head: &'a [char] = &name[0..i];
                assert(head@ == name@.take(i as int));
                Some(head)
            } else {
                None
            }
        },
    }
}

/// A name of digits names a process.
pub fn is_pid(name: &str) -> (r: bool)
    ensures
        r == crate::number::all_digits(name@),
{
    let chars: Vec<char> = chars_of(name);
    is_all_digits(chars.as_slice())
}

// ---------------------------------------------------------------------------
// Laws
// ---------------------------------------------------------------------------

/// A stem, a dot and an extension without dots make a name with that stem and that
/// extension, and no other name has them.
pub proof fn law_stem_and_extension(stem: Seq<char>, ext: Seq<char>, name: Seq<char>)
    requires
        stem.len() > 0,
        !ext.contains('.'),
        ext.len() > 0 || stem != seq!['.'],
    ensures
        stem_of(name, ext) == Some(stem) <==> name == stem + seq!['.'] + ext,
{
    let joined = stem + seq!['.'] + ext;
    let i = stem.len() as int;
    assert(joined.skip(i + 1) == ext);
    assert(joined.take(i) == stem);
    crate::text::lemma_last_index_unique(joined, '.', i);
    if joined == seq!['.', '.'] {
        assert(stem =~= seq!['.']);
    }
    crate::text::lemma_last_index(name, '.');
    if stem_of(name, ext) == Some(stem) {
        let k = crate::text::last_index(name, '.')->0;
        assert(name == name.take(k) + seq!['.'] + name.skip(k + 1));
    }
}

/// A part before an extension is never empty: a name that begins with its only dot has
/// no extension.
pub proof fn law_stem_is_not_empty(name: Seq<char>, ext: Seq<char>)
    ensures
        stem_of(name, ext) matches Some(stem) ==> stem.len() > 0 && name == stem + seq!['.'] + ext,
{
    crate::text::lemma_last_index(name, '.');
    if stem_of(name, ext) is Some {
        let i = crate::text::last_index(name, '.')->0;
        assert(name == name.take(i) + seq!['.'] + name.skip(i + 1));
    }
}

} // verus!
