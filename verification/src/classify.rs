//! Sorting paths into headers, compilation units and everything else.

use vstd::prelude::*;
use crate::text::{ends_with, lowercase, split_last, to_lowercase};

verus! {

/// What a file is to the build.
#[derive(Clone, Copy, Debug, PartialEq, Eq, Structural)]
pub enum Role {
    /// A header: listed, never compiled by itself.
    Header,
    /// A source file that is compiled into one object file.
    CompilationUnit,
    /// Any other file; it takes no part in the build.
    Ignored,
}

/// Whether a lowercase path ends in a header suffix.
pub open spec fn has_header_suffix(lower: Seq<char>) -> bool {
    ".hpp"@.is_suffix_of(lower) || ".h"@.is_suffix_of(lower)
}

/// Whether a lowercase path ends in the suffix of a compilation unit.
pub open spec fn has_unit_suffix(lower: Seq<char>) -> bool {
    ".cpp"@.is_suffix_of(lower) || ".cc"@.is_suffix_of(lower) || ".c"@.is_suffix_of(lower)
}

/// The role of a path that is already in lowercase. Header suffixes are
/// tried first.
pub open spec fn role_of_lowered(lower: Seq<char>) -> Role {
    if has_header_suffix(lower) {
        Role::Header
    } else if has_unit_suffix(lower) {
        Role::CompilationUnit
    } else {
        Role::Ignored
    }
}

/// The role of a path: that of its lowercase form.
pub open spec fn role_of(path: Seq<char>) -> Role {
    role_of_lowered(lowercase(path))
}

/// The paths among `files` that have the role `role`, in the order of `files`.
pub open spec fn with_role(files: Seq<Seq<char>>, role: Role) -> Seq<Seq<char>>
    decreases files.len(),
{
    if files.len() == 0 {
        files
    } else if role_of(files.last()) == role {
        with_role(files.drop_last(), role).push(files.last())
    } else {
        with_role(files.drop_last(), role)
    }
}

/// The headers among `files`, in the order of `files`.
pub open spec fn headers_of(files: Seq<Seq<char>>) -> Seq<Seq<char>> {
    with_role(files, Role::Header)
}

/// The compilation units among `files`, in the order of `files`.
pub open spec fn units_of(files: Seq<Seq<char>>) -> Seq<Seq<char>> {
    with_role(files, Role::CompilationUnit)
}

/// Classifies a path that is already in lowercase.
pub fn classify_lowered(lower: &str) -> (r: Role)
    ensures
        r == role_of_lowered(lower@),
{
    if ends_with(lower, ".hpp") || ends_with(lower, ".h") {
        Role::Header
    } else if ends_with(lower, ".cpp") || ends_with(lower, ".cc") || ends_with(lower, ".c") {
        Role::CompilationUnit
    } else {
        Role::Ignored
    }
}

/// Classifies a path by its suffix, whatever the case of its letters. Every
/// path has exactly one role, and the same path always has the same role.
pub fn classify(path: &str) -> (r: Role)
    ensures
        r == role_of(path@),
{
    let lower = to_lowercase(path);
    classify_lowered(lower.as_str())
}

/// Two paths with the same lowercase form have the same role: the case of a
/// path's letters does not matter to its classification.
pub proof fn law_classification_ignores_case(a: Seq<char>, b: Seq<char>)
    requires
        lowercase(a) == lowercase(b),
    ensures
        role_of(a) == role_of(b),
{
}

/// The paths with a role are exactly the paths of `files` that have it.
pub proof fn law_with_role_selects(files: Seq<Seq<char>>, role: Role)
    ensures
        forall|p: Seq<char>|
            with_role(files, role).contains(p) <==> files.contains(p) && role_of(p) == role,
    decreases files.len(),
{
    if files.len() > 0 {
        let before = files.drop_last();
        let last = files.last();
        law_with_role_selects(before, role);
        assert forall|p: Seq<char>|
            with_role(files, role).contains(p) <==> files.contains(p) && role_of(p)
                == role by {
            let picked = with_role(files, role);
            let picked_before = with_role(before, role);
            if picked.contains(p) {
                let i = choose|i: int| 0 <= i < picked.len() && picked[i] == p;
                if i < picked_before.len() {
                    assert(picked_before[i] == p);
                    assert(picked_before.contains(p));
                    let j = choose|j: int| 0 <= j < before.len() && before[j] == p;
                    assert(files[j] == p);
                } else {
                    assert(p == last);
                    assert(files[files.len() - 1] == p);
                }
            }
            if files.contains(p) && role_of(p) == role {
                let j = choose|j: int| 0 <= j < files.len() && files[j] == p;
                if j < before.len() {
                    assert(before[j] == p);
                    assert(before.contains(p));
                    let i = choose|i: int| 0 <= i < picked_before.len() && picked_before[i] == p;
                    assert(picked[i] == p);
                } else {
                    assert(picked[picked.len() - 1] == p);
                }
            }
        }
    }
}

/// No path has both a header suffix and the suffix of a compilation unit.
pub proof fn law_suffix_sets_disjoint(lower: Seq<char>)
    ensures
        !(has_header_suffix(lower) && has_unit_suffix(lower)),
{
    reveal_strlit(".hpp");
    reveal_strlit(".h");
    reveal_strlit(".cpp");
    reveal_strlit(".cc");
    reveal_strlit(".c");
    let n = lower.len() as int;
    if has_header_suffix(lower) && has_unit_suffix(lower) {
        if ".hpp"@.is_suffix_of(lower) {
            assert(lower.subrange(n - 4, n)[3] == 'p');
            assert(lower[n - 1] == 'p');
            if ".cpp"@.is_suffix_of(lower) {
                assert(lower.subrange(n - 4, n)[1] == 'h');
                assert(lower.subrange(n - 4, n)[1] == 'c');
            } else if ".cc"@.is_suffix_of(lower) {
                assert(lower.subrange(n - 3, n)[2] == 'c');
            } else {
                assert(lower.subrange(n - 2, n)[1] == 'c');
            }
        } else {
            assert(lower.subrange(n - 2, n)[1] == 'h');
            assert(lower[n - 1] == 'h');
            if ".cpp"@.is_suffix_of(lower) {
                assert(lower.subrange(n - 4, n)[3] == 'p');
            } else if ".cc"@.is_suffix_of(lower) {
                assert(lower.subrange(n - 3, n)[2] == 'c');
            } else {
                assert(lower.subrange(n - 2, n)[1] == 'c');
            }
        }
    }
}

/// A suffix that starts with a dot and holds no other dot matches exactly
/// the paths whose text after the last dot is the rest of the suffix.
pub proof fn lemma_suffix_is_extension(lower: Seq<char>, ext: Seq<char>)
    requires
        !ext.contains('.'),
    ensures
        (seq!['.'] + ext).is_suffix_of(lower) <==> (split_last(lower, '.') matches Some((_, e))
            && e == ext),
{
    let suffix = seq!['.'] + ext;
    let n = lower.len() as int;
    let m = suffix.len() as int;
    lower.index_of_last_ensures('.');
    if suffix.is_suffix_of(lower) {
        assert(lower.subrange(n - m, n)[0] == '.');
        assert(lower[n - m] == '.');
        let k = lower.index_of_last('.')->0;
        if k > n - m {
            assert(lower.subrange(n - m, n)[k - (n - m)] == '.');
            assert(ext[k - (n - m) - 1] == '.');
        }
        assert(k == n - m);
        assert forall|i: int| 0 <= i < ext.len() implies lower.skip(k + 1)[i] == ext[i] by {
            assert(lower.subrange(n - m, n)[i + 1] == suffix[i + 1]);
        }
        assert(lower.skip(k + 1) =~= ext);
    }
    if split_last(lower, '.') matches Some((_, e)) && e == ext {
        let k = lower.index_of_last('.')->0;
        assert(lower.skip(k + 1) == ext);
        assert(lower.subrange(n - m, n) =~= suffix);
    }
}

/// The role of a lowercase path depends on its extension alone, the whole
/// text after its last dot: `hpp` and `h` make a header, `cpp`, `cc` and `c`
/// a compilation unit, and a path with any other extension, or with none, is
/// ignored.
pub proof fn law_role_by_extension(lower: Seq<char>)
    ensures
        role_of_lowered(lower) is Header <==> (split_last(lower, '.') matches Some((_, e)) && (e
            == "hpp"@ || e == "h"@)),
        role_of_lowered(lower) is CompilationUnit <==> (split_last(lower, '.') matches Some((_, e))
            && (e == "cpp"@ || e == "cc"@ || e == "c"@)),
{
    reveal_strlit(".hpp");
    reveal_strlit(".h");
    reveal_strlit(".cpp");
    reveal_strlit(".cc");
    reveal_strlit(".c");
    reveal_strlit("hpp");
    reveal_strlit("h");
    reveal_strlit("cpp");
    reveal_strlit("cc");
    reveal_strlit("c");
    law_suffix_sets_disjoint(lower);
    assert(".hpp"@ =~= seq!['.'] + "hpp"@);
    assert(".h"@ =~= seq!['.'] + "h"@);
    assert(".cpp"@ =~= seq!['.'] + "cpp"@);
    assert(".cc"@ =~= seq!['.'] + "cc"@);
    assert(".c"@ =~= seq!['.'] + "c"@);
    lemma_suffix_is_extension(lower, "hpp"@);
    lemma_suffix_is_extension(lower, "h"@);
    lemma_suffix_is_extension(lower, "cpp"@);
    lemma_suffix_is_extension(lower, "cc"@);
    lemma_suffix_is_extension(lower, "c"@);
}

/// The extension of a lowercase compilation unit holds no path separator:
/// its last dot stands in its last segment.
pub proof fn law_unit_extension_is_plain(lower: Seq<char>)
    requires
        role_of_lowered(lower) is CompilationUnit,
    ensures
        split_last(lower, '.') matches Some((_, e)) && !e.contains('/'),
{
    reveal_strlit("cpp");
    reveal_strlit("cc");
    reveal_strlit("c");
    law_role_by_extension(lower);
}

} // verus!
