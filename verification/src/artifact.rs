//! Deriving the object file of a compilation unit.

use vstd::prelude::*;
use vstd::string::*;
use crate::error::MakeError;
use crate::text::{lemma_first_index, lemma_last_index, rsplit_once, split_first, split_last, split_once};

verus! {

/// The path of a unit with its extension, the text after its last dot,
/// replaced by `o`; `None` for a path without a dot.
pub open spec fn object_name(unit: Seq<char>) -> Option<Seq<char>> {
    match split_last(unit, '.') {
        Some((stem, _)) => Some(stem + ".o"@),
        None => None,
    }
}

/// The object file of a compilation unit: the unit's path with its extension
/// replaced, its first segment (the source root) removed, under `out_dir`.
/// `None` for a path without a dot, or without a separator before its last
/// dot.
pub open spec fn artifact_of(unit: Seq<char>, out_dir: Seq<char>) -> Option<Seq<char>> {
    match object_name(unit) {
        Some(name) => match split_first(name, '/') {
            Some((_, rest)) => Some(out_dir + "/"@ + rest),
            None => None,
        },
        None => None,
    }
}

/// The artifacts of `units`, one per unit and in their order; `None` as soon
/// as one unit has no artifact.
pub open spec fn artifacts_of(units: Seq<Seq<char>>, out_dir: Seq<char>) -> Option<
    Seq<Seq<char>>,
> {
    if forall|i: int| 0 <= i < units.len() ==> artifact_of(#[trigger] units[i], out_dir) is Some {
        Some(Seq::new(units.len(), |i: int| artifact_of(units[i], out_dir)->0))
    } else {
        None
    }
}

/// The source root of a unit: its first segment, the text before its first
/// separator, or the whole path where it has none.
pub open spec fn source_root(unit: Seq<char>) -> Seq<char> {
    match split_first(unit, '/') {
        Some((root, _)) => root,
        None => unit,
    }
}

/// The last segment of a path: the text after its last separator, or the
/// whole path where it has none.
pub open spec fn final_segment(path: Seq<char>) -> Seq<char> {
    match split_last(path, '/') {
        Some((_, name)) => name,
        None => path,
    }
}

/// Derives the path of the object file that `unit` is compiled into, under
/// `out_dir`.
pub fn map_to_artifact(unit: &str, out_dir: &str) -> (r: Result<String, MakeError>)
    ensures
        match r {
            Ok(artifact) => artifact_of(unit@, out_dir@) == Some(artifact@),
            Err(e) => e == MakeError::InvalidUnitPath && artifact_of(unit@, out_dir@) is None,
        },
{
    match rsplit_once(unit, '.') {
        None => Err(MakeError::InvalidUnitPath),
        Some((stem, _)) => {
            let name = stem.concat(".o");
            match split_once(name.as_str(), '/') {
                None => Err(MakeError::InvalidUnitPath),
                Some((_, rest)) => {
                    let mut artifact = String::from_str(out_dir);
                    artifact.append("/");
                    artifact.append(rest.as_str());
                    Ok(artifact)
                },
            }
        },
    }
}

/// Derives the object file of every unit, in the order of the units. One
/// unit without an artifact fails the whole list.
pub fn map_to_artifacts(units: &Vec<String>, out_dir: &str) -> (r: Result<Vec<String>, MakeError>)
    ensures
        match r {
            Ok(artifacts) => artifacts_of(units.deep_view(), out_dir@) == Some(
                artifacts.deep_view(),
            ),
            Err(e) => e == MakeError::InvalidUnitPath && artifacts_of(units.deep_view(), out_dir@)
                is None,
        },
{
    let mut artifacts: Vec<String> = Vec::new();
    let mut i: usize = 0;
    while i < units.len()
        invariant
            i <= units.len(),
            artifacts.len() == i,
            forall|j: int|
                0 <= j < i ==> artifact_of(#[trigger] units.deep_view()[j], out_dir@) == Some(
                    artifacts.deep_view()[j],
                ),
        decreases units.len() - i,
    {
        match map_to_artifact(units[i].as_str(), out_dir) {
            Ok(artifact) => {
                artifacts.push(artifact);
            },
            Err(e) => {
                assert(artifact_of(units.deep_view()[i as int], out_dir@) is None);
                return Err(e);
            },
        }
        i += 1;
    }
    proof {
        let all = artifacts_of(units.deep_view(), out_dir@);
        assert(all is Some);
        assert(all->0 =~= artifacts.deep_view());
    }
    Ok(artifacts)
}

/// The source root of `unit`.
pub fn root_of(unit: &str) -> (r: String)
    ensures
        r@ == source_root(unit@),
{
    match split_once(unit, '/') {
        Some((root, _)) => root,
        None => unit.to_owned(),
    }
}

/// The last segment of a path is that of what follows any of its separators.
pub proof fn lemma_final_segment_of_tail(head: Seq<char>, tail: Seq<char>)
    ensures
        final_segment(head + seq!['/'] + tail) == final_segment(tail),
{
    let whole = head + seq!['/'] + tail;
    let h = head.len() as int;
    tail.index_of_last_ensures('/');
    match tail.index_of_last('/') {
        Some(l) => {
            assert(whole[h + 1 + l] == tail[l]);
            assert forall|j: int| h + 1 + l < j < whole.len() implies whole[j] != '/' by {
                assert(whole[j] == tail[j - h - 1]);
            }
            lemma_last_index(whole, '/', h + 1 + l);
            assert(whole.skip(h + 1 + l + 1) =~= tail.skip(l + 1));
        },
        None => {
            assert(whole[h] == '/');
            assert forall|j: int| h < j < whole.len() implies whole[j] != '/' by {
                assert(whole[j] == tail[j - h - 1]);
                assert(tail.contains(tail[j - h - 1]));
            }
            lemma_last_index(whole, '/', h);
            assert(whole.skip(h + 1) =~= tail);
        },
    }
}

/// Every artifact lies under the output directory.
pub proof fn law_artifact_under_out_dir(unit: Seq<char>, out_dir: Seq<char>)
    requires
        artifact_of(unit, out_dir) is Some,
    ensures
        (out_dir + "/"@).is_prefix_of(artifact_of(unit, out_dir)->0),
{
    let prefix = out_dir + "/"@;
    let a = artifact_of(unit, out_dir)->0;
    assert(a.subrange(0, prefix.len() as int) =~= prefix);
}

/// Where a unit has an artifact, the places of its first separator and of
/// its last dot: the separator stands before the dot, and the artifact is
/// the output directory, a separator, and what lies between the two places
/// with `.o` behind it.
proof fn lemma_artifact_parts(unit: Seq<char>, out_dir: Seq<char>) -> (at: (int, int))
    requires
        artifact_of(unit, out_dir) is Some,
    ensures
        0 <= at.0 < at.1 < unit.len(),
        unit[at.0] == '/',
        unit[at.1] == '.',
        unit.index_of_first('/') == Some(at.0),
        unit.index_of_last('.') == Some(at.1),
        object_name(unit) == Some(unit.take(at.1) + ".o"@),
        (unit.take(at.1) + ".o"@).index_of_first('/') == Some(at.0),
        artifact_of(unit, out_dir) == Some(
            out_dir + "/"@ + (unit.subrange(at.0 + 1, at.1) + ".o"@),
        ),
{
    reveal_strlit(".o");
    unit.index_of_last_ensures('.');
    let k = unit.index_of_last('.')->0;
    let name = unit.take(k) + ".o"@;
    name.index_of_first_ensures('/');
    let j = name.index_of_first('/')->0;
    assert(j < k) by {
        if j >= k {
            assert(name[j] == ".o"@[j - k]);
        }
    }
    assert(unit[j] == name[j]);
    assert forall|i: int| 0 <= i < j implies unit[i] != '/' by {
        assert(unit[i] == name[i]);
    }
    lemma_first_index(unit, '/', j);
    assert(name.skip(j + 1) =~= unit.subrange(j + 1, k) + ".o"@);
    (j, k)
}

/// The object name of what follows a place before a path's last dot.
proof fn lemma_object_name_of_tail(path: Seq<char>, from: int, dot: int)
    requires
        0 <= from <= dot < path.len(),
        path.index_of_last('.') == Some(dot),
    ensures
        object_name(path.skip(from)) == Some(path.subrange(from, dot) + ".o"@),
{
    path.index_of_last_ensures('.');
    let tail = path.skip(from);
    assert(tail[dot - from] == path[dot]);
    assert forall|i: int| dot - from < i < tail.len() implies tail[i] != '.' by {
        assert(tail[i] == path[i + from]);
    }
    lemma_last_index(tail, '.', dot - from);
    assert(tail.take(dot - from) =~= path.subrange(from, dot));
}

/// An artifact keeps the unit's path beneath its source root: it is the
/// output directory, a separator, and what follows the unit's first
/// separator with the extension replaced.
pub proof fn law_artifact_keeps_sub_path(unit: Seq<char>, out_dir: Seq<char>)
    requires
        artifact_of(unit, out_dir) is Some,
    ensures
        split_first(unit, '/') matches Some((_, sub)) && object_name(sub) matches Some(name)
            && artifact_of(unit, out_dir) == Some(out_dir + "/"@ + name),
{
    let (j, k) = lemma_artifact_parts(unit, out_dir);
    lemma_object_name_of_tail(unit, j + 1, k);
}

/// The last segment of an artifact is that of the unit's path with its
/// extension replaced. Where the unit's extension holds no separator, as
/// that of every compilation unit does, this is the unit's base name with
/// its extension replaced.
pub proof fn law_artifact_final_segment(unit: Seq<char>, out_dir: Seq<char>)
    requires
        artifact_of(unit, out_dir) is Some,
    ensures
        final_segment(artifact_of(unit, out_dir)->0) == final_segment(object_name(unit)->0),
        (split_last(unit, '.') matches Some((_, ext)) && !ext.contains('/')) ==> object_name(
            final_segment(unit),
        ) == Some(final_segment(artifact_of(unit, out_dir)->0)),
{
    reveal_strlit(".o");
    reveal_strlit("/");
    let (j, k) = lemma_artifact_parts(unit, out_dir);
    let name = unit.take(k) + ".o"@;
    let rest = unit.subrange(j + 1, k) + ".o"@;
    assert("/"@ =~= seq!['/']);
    assert(name =~= unit.take(j) + seq!['/'] + rest);
    lemma_final_segment_of_tail(out_dir, rest);
    lemma_final_segment_of_tail(unit.take(j), rest);
    let ext = unit.skip(k + 1);
    if !ext.contains('/') {
        assert(unit.contains('/'));
        unit.index_of_last_ensures('/');
        let l = unit.index_of_last('/')->0;
        assert(l < k) by {
            if l > k {
                assert(ext[l - k - 1] == unit[l]);
                assert(ext.contains('/'));
            }
        }
        lemma_object_name_of_tail(unit, l + 1, k);
        assert(name[l] == unit[l]);
        assert forall|i: int| l < i < name.len() implies name[i] != '/' by {
            if i < k {
                assert(name[i] == unit[i]);
            } else {
                assert(name[i] == ".o"@[i - k]);
            }
        }
        lemma_last_index(name, '/', l);
        assert(name.skip(l + 1) =~= unit.subrange(l + 1, k) + ".o"@);
    }
}

} // verus!
