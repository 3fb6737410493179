//! Discovery of shader objects in generated modules: a generated module
//! names each object it defines by a path `objects::<Name>::ASM`.
use vstd::prelude::*;
use crate::error::{BuildError, BuildErrorView};
use crate::listing::str_eq;
use crate::names::{NameSet, strings_view};

verus! {

/// A parsed Rust source file.
#[verifier::external_type_specification]
#[verifier::external_body]
pub struct ExFile(syn::File);

/// Whether `text` is a well-formed Rust source file.
pub uninterp spec fn parses_as_rust_file(text: Seq<char>) -> bool;

/// Relies on `syn::parse_file`: it parses a whole Rust source file, and
/// fails, with a message, exactly on text that is not one.
#[verifier::external_body]
fn parse_rust_file(text: &str) -> (r: Result<syn::File, String>)
    ensures
        r is Ok <==> parses_as_rust_file(text@),
{
    match syn::parse_file(text) {
        Ok(f) => Ok(f),
        Err(e) => Err(e.to_string()),
    }
}

/// Parses the generated module `file`, whose content is `text`.
pub fn parse_artifact(file: &str, text: &str) -> (r: Result<syn::File, BuildError>)
    ensures
        r is Ok <==> parses_as_rust_file(text@),
        r matches Err(e) ==> e@ matches BuildErrorView::Parse { file: f, .. } && f == file@,
{
    match parse_rust_file(text) {
        Ok(f) => Ok(f),
        Err(reason) => Err(BuildError::Parse { file: file.to_owned(), reason }),
    }
}

/// The object named by a path of segments: the middle one of a path
/// `objects::<Name>::ASM`.
pub open spec fn object_id_spec(segments: Seq<Seq<char>>) -> Option<Seq<char>> {
    if segments.len() == 3 && segments[0] == "objects"@ && segments[2] == "ASM"@ {
        Some(segments[1])
    } else {
        None
    }
}

/// The object that a path expression names, if it is of the form
/// `objects::<Name>::ASM`.
pub fn object_id(segments: &Vec<String>) -> (r: Option<String>)
    ensures
        match r {
            Some(s) => object_id_spec(strings_view(segments@)) == Some(s@),
            None => object_id_spec(strings_view(segments@)) is None,
        },
{
    if segments.len() == 3 && str_eq(segments[0].as_str(), "objects") && str_eq(
        segments[2].as_str(),
        "ASM",
    ) {
        Some(segments[1].clone())
    } else {
        None
    }
}

/// The models of a list of paths.
pub open spec fn paths_view(paths: Seq<Vec<String>>) -> Seq<Seq<Seq<char>>> {
    paths.map_values(|p: Vec<String>| strings_view(p@))
}

/// The objects named by a list of paths.
pub open spec fn object_ids(paths: Seq<Seq<Seq<char>>>) -> Set<Seq<char>> {
    Set::new(|x: Seq<char>| exists|i: int| 0 <= i < paths.len() && object_id_spec(paths[i]) == Some(x))
}

/// Adds to `ids` every object that one of the path expressions `paths` names.
pub fn add_object_ids(ids: &mut NameSet, paths: &Vec<Vec<String>>)
    requires
        old(ids).wf(),
    ensures
        final(ids).wf(),
        final(ids)@ == old(ids)@.union(object_ids(paths_view(paths@))),
{
    let ghost ps = paths_view(paths@);
    let mut i: usize = 0;
    while i < paths.len()
        invariant
            i <= paths@.len(),
            ps == paths_view(paths@),
            ids.wf(),
            ids@ == old(ids)@.union(object_ids(ps.subrange(0, i as int))),
        decreases paths@.len() - i,
    {
        let ghost before = ids@;
        let found = object_id(&paths[i]);
        assert(ps[i as int] == strings_view(paths@[i as int]@));
        match found {
            Some(name) => {
                ids.insert(name);
            },
            None => {},
        }
        assert forall|x: Seq<char>| ids@.contains(x) <==> old(ids)@.union(object_ids(ps.subrange(0, i + 1))).contains(x) by {
            if object_ids(ps.subrange(0, i as int)).contains(x) {
                let k = choose|k: int| 0 <= k < i && object_id_spec(#[trigger] ps.subrange(0, i as int)[k]) == Some(x);
                assert(ps.subrange(0, i + 1)[k] == ps.subrange(0, i as int)[k]);
            }
            if object_ids(ps.subrange(0, i + 1)).contains(x) {
                let k = choose|k: int| 0 <= k < i + 1 && object_id_spec(#[trigger] ps.subrange(0, i + 1)[k]) == Some(x);
                if k < i {
                    assert(ps.subrange(0, i as int)[k] == ps.subrange(0, i + 1)[k]);
                }
            }
            if object_id_spec(ps[i as int]) == Some(x) {
                assert(ps.subrange(0, i + 1)[i as int] == ps[i as int]);
            }
        }
        assert(ids@ =~= old(ids)@.union(object_ids(ps.subrange(0, i + 1))));
        i = i + 1;
    }
    assert(ps.subrange(0, paths@.len() as int) =~= ps);
}

} // verus!
