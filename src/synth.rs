//! The two aggregator modules, and the reconciliation of per-object files
//! with the set of discovered objects.
use vstd::prelude::*;
use vstd::string::StringExecFns;
use crate::listing::{DirEntry, EntryView, entries_view, has_extension, stem_of, name_has_extension, name_stem};
use crate::names::NameSet;
use crate::scan::rs_ext;

verus! {

/// A regular file with the extension of generated modules.
pub open spec fn is_module_file(e: EntryView) -> bool {
    e.is_file && has_extension(e.name, rs_ext())
}

/// The module name of a module file.
pub open spec fn module_stem(e: EntryView) -> Seq<char> {
    stem_of(e.name, rs_ext())
}

/// The module names of the module files of a listing.
pub open spec fn module_stems(s: Seq<EntryView>) -> Set<Seq<char>> {
    Set::new(|x: Seq<char>| exists|i: int| 0 <= i < s.len() && is_module_file(s[i]) && #[trigger] module_stem(s[i]) == x)
}

/// The module names of a directory listing, but the aggregator's own name
/// `mod`.
pub fn generated_modules(entries: &Vec<DirEntry>) -> (r: NameSet)
    ensures
        r.wf(),
        r@ == module_stems(entries_view(entries@)).remove("mod"@),
{
    let ghost s = entries_view(entries@);
    let mut r = NameSet::new();
    let mut i: usize = 0;
    proof {
        reveal_strlit("rs");
        assert("rs"@ =~= rs_ext());
    }
    while i < entries.len()
        invariant
            i <= entries@.len(),
            s == entries_view(entries@),
            "rs"@ == rs_ext(),
            r.wf(),
            r@ == module_stems(s.subrange(0, i as int)).remove("mod"@),
        decreases entries@.len() - i,
    {
        let e = &entries[i];
        assert(s[i as int] == e@);
        let ghost before = r@;
        if e.is_file && name_has_extension(e.name.as_str(), "rs") {
            let stem = name_stem(e.name.as_str(), "rs");
            if !crate::listing::str_eq(stem.as_str(), "mod") {
                r.insert(stem);
            }
        }
        assert forall|x: Seq<char>| r@.contains(x) <==> module_stems(s.subrange(0, i + 1)).remove("mod"@).contains(x) by {
            if module_stems(s.subrange(0, i as int)).contains(x) {
                let k = choose|k: int| 0 <= k < i && is_module_file(s.subrange(0, i as int)[k]) && #[trigger] module_stem(s.subrange(0, i as int)[k]) == x;
                assert(s.subrange(0, i + 1)[k] == s.subrange(0, i as int)[k]);
            }
            if module_stems(s.subrange(0, i + 1)).contains(x) {
                let k = choose|k: int| 0 <= k < i + 1 && is_module_file(s.subrange(0, i + 1)[k]) && #[trigger] module_stem(s.subrange(0, i + 1)[k]) == x;
                if k < i {
                    assert(s.subrange(0, i as int)[k] == s.subrange(0, i + 1)[k]);
                }
            }
            if is_module_file(s[i as int]) && module_stem(s[i as int]) == x {
                assert(s.subrange(0, i + 1)[i as int] == s[i as int]);
            }
        }
        assert(r@ =~= module_stems(s.subrange(0, i + 1)).remove("mod"@));
        i = i + 1;
    }
    assert(s.subrange(0, entries@.len() as int) =~= s);
    r
}

/// `prefix + name + suffix` for each name in order.
pub open spec fn lines(names: Seq<Seq<char>>, prefix: Seq<char>, suffix: Seq<char>) -> Seq<char>
    decreases names.len(),
{
    if names.len() == 0 {
        Seq::empty()
    } else {
        lines(names.drop_last(), prefix, suffix) + prefix + names.last() + suffix
    }
}

/// Appends one line for each member of `names`, in order.
fn append_lines(out: &mut String, names: &NameSet, prefix: &str, suffix: &str)
    ensures
        final(out)@ == old(out)@ + lines(names.members(), prefix@, suffix@),
{
    let ghost start = out@;
    let n = names.count();
    let mut i: usize = 0;
    assert(names.members().subrange(0, 0) =~= Seq::<Seq<char>>::empty());
    while i < n
        invariant
            n == names.members().len(),
            i <= n,
            out@ == start + lines(names.members().subrange(0, i as int), prefix@, suffix@),
        decreases n - i,
    {
        let name = names.get(i);
        out.append(prefix);
        out.append(name.as_str());
        out.append(suffix);
        let ghost sub = names.members().subrange(0, i + 1);
        assert(sub.drop_last() =~= names.members().subrange(0, i as int));
        assert(sub.last() == name@);
        assert(out@ =~= start + lines(sub, prefix@, suffix@));
        i = i + 1;
    }
    assert(names.members().subrange(0, n as int) =~= names.members());
}

/// The text of the artifact index: the shared node type, the object index
/// module and its entry point, then one module per generated module.
pub open spec fn artifact_index_spec(modules: Seq<Seq<char>>) -> Seq<char> {
    "use super::ShaderNode;\nmod objects;\npub use objects::initialize_shaders;\n"@
        + lines(modules, "pub mod "@, ";\n"@)
}

/// The text of the object index: the shared node type, one module per
/// object, then an entry point that initializes all objects concurrently
/// and returns when every one has finished.
pub open spec fn object_index_spec(objects: Seq<Seq<char>>) -> Seq<char> {
    "#![allow(nonstandard_style)]\nuse super::ShaderNode;\n"@
        + lines(objects, "pub mod "@, ";\n"@)
        + "\npub async fn initialize_shaders() {\n    let _ = vc4_drm::tokio::join!(\n"@
        + lines(objects, "        "@, "::ASM.initialize(),\n"@)
        + "    );\n}\n"@
}

/// The artifact index for the generated modules `modules`, in order.
pub fn build_generated_mod(modules: &NameSet) -> (r: String)
    ensures
        r@ == artifact_index_spec(modules.members()),
{
    let mut r = String::from_str(
        "use super::ShaderNode;\nmod objects;\npub use objects::initialize_shaders;\n",
    );
    append_lines(&mut r, modules, "pub mod ", ";\n");
    r
}

/// The object index for the objects `objects`, in order.
pub fn build_objects_mod(objects: &NameSet) -> (r: String)
    ensures
        r@ == object_index_spec(objects.members()),
{
    let mut r = String::from_str("#![allow(nonstandard_style)]\nuse super::ShaderNode;\n");
    append_lines(&mut r, objects, "pub mod ", ";\n");
    r.append("\npub async fn initialize_shaders() {\n    let _ = vc4_drm::tokio::join!(\n");
    append_lines(&mut r, objects, "        ", "::ASM.initialize(),\n");
    r.append("    );\n}\n");
    r
}

/// Synthesis depends on the sets alone: two name sets with the same members
/// give byte-identical aggregator texts.
pub proof fn lemma_synthesis_idempotent(modules_a: &NameSet, modules_b: &NameSet, objects_a: &NameSet, objects_b: &NameSet)
    requires
        modules_a.wf(),
        modules_b.wf(),
        objects_a.wf(),
        objects_b.wf(),
        modules_a@ == modules_b@,
        objects_a@ == objects_b@,
    ensures
        artifact_index_spec(modules_a.members()) == artifact_index_spec(modules_b.members()),
        object_index_spec(objects_a.members()) == object_index_spec(objects_b.members()),
{
    crate::names::lemma_same_set_same_order(modules_a, modules_b);
    crate::names::lemma_same_set_same_order(objects_a, objects_b);
}

/// Whether synthesis must run: after any compilation, or when either
/// aggregator file is missing.
pub fn needs_synthesis(compiled: bool, artifact_index_exists: bool, object_index_exists: bool) -> (r: bool)
    ensures
        r == (compiled || !artifact_index_exists || !object_index_exists),
{
    compiled || !artifact_index_exists || !object_index_exists
}

/// A per-object file whose object is no longer discovered.
pub open spec fn is_stale_object(e: EntryView, ids: Set<Seq<char>>) -> bool {
    is_module_file(e) && module_stem(e) != "mod"@ && !ids.contains(module_stem(e))
}

/// The names of the stale per-object files of a listing, in order.
pub open spec fn stale_objects(s: Seq<EntryView>, ids: Set<Seq<char>>) -> Seq<Seq<char>>
    decreases s.len(),
{
    if s.len() == 0 {
        Seq::empty()
    } else if is_stale_object(s.last(), ids) {
        stale_objects(s.drop_last(), ids).push(s.last().name)
    } else {
        stale_objects(s.drop_last(), ids)
    }
}

/// The file names to delete from the object directory, whose listing is
/// `entries`, so that only the aggregator and the files of `ids` stay.
pub fn stale_object_files(entries: &Vec<DirEntry>, ids: &NameSet) -> (r: Vec<String>)
    ensures
        crate::names::strings_view(r@) == stale_objects(entries_view(entries@), ids@),
{
    let ghost s = entries_view(entries@);
    let mut r: Vec<String> = Vec::new();
    let mut i: usize = 0;
    proof {
        reveal_strlit("rs");
        assert("rs"@ =~= rs_ext());
    }
    while i < entries.len()
        invariant
            i <= entries@.len(),
            s == entries_view(entries@),
            "rs"@ == rs_ext(),
            crate::names::strings_view(r@) == stale_objects(s.subrange(0, i as int), ids@),
        decreases entries@.len() - i,
    {
        let e = &entries[i];
        let ghost sub = s.subrange(0, i + 1);
        assert(sub.drop_last() =~= s.subrange(0, i as int));
        assert(sub.last() == e@);
        if e.is_file && name_has_extension(e.name.as_str(), "rs") {
            let stem = name_stem(e.name.as_str(), "rs");
            if !crate::listing::str_eq(stem.as_str(), "mod") && !ids.contains(stem.as_str()) {
                r.push(e.name.clone());
                assert(crate::names::strings_view(r@) =~= stale_objects(s.subrange(0, i as int), ids@).push(e@.name));
            }
        }
        i = i + 1;
    }
    assert(s.subrange(0, entries@.len() as int) =~= s);
    r
}

/// The module names of the module files of a listing that are not among
/// the removed names.
pub open spec fn module_stems_left(s: Seq<EntryView>, removed: Seq<Seq<char>>) -> Set<Seq<char>> {
    Set::new(|x: Seq<char>| exists|i: int| 0 <= i < s.len() && is_module_file(s[i]) && !removed.contains(s[i].name) && #[trigger] module_stem(s[i]) == x)
}

proof fn lemma_stale_objects_members(s: Seq<EntryView>, ids: Set<Seq<char>>, n: Seq<char>)
    ensures
        stale_objects(s, ids).contains(n) <==> exists|i: int| 0 <= i < s.len() && #[trigger] is_stale_object(s[i], ids) && s[i].name == n,
    decreases s.len(),
{
    if s.len() > 0 {
        let d = s.drop_last();
        lemma_stale_objects_members(d, ids, n);
        let sd = stale_objects(d, ids);
        let last = s[s.len() - 1];
        if stale_objects(s, ids).contains(n) {
            let k = choose|k: int| 0 <= k < stale_objects(s, ids).len() && stale_objects(s, ids)[k] == n;
            if is_stale_object(last, ids) && k == sd.len() {
                assert(is_stale_object(s[s.len() - 1], ids) && s[s.len() - 1].name == n);
            } else {
                assert(sd[k] == n);
                assert(sd.contains(n));
                let i = choose|i: int| 0 <= i < d.len() && #[trigger] is_stale_object(d[i], ids) && d[i].name == n;
                assert(s[i] == d[i]);
            }
        }
        if exists|i: int| 0 <= i < s.len() && #[trigger] is_stale_object(s[i], ids) && s[i].name == n {
            let i = choose|i: int| 0 <= i < s.len() && #[trigger] is_stale_object(s[i], ids) && s[i].name == n;
            if i < s.len() - 1 {
                assert(d[i] == s[i]);
                assert(sd.contains(n));
                let k = choose|k: int| 0 <= k < sd.len() && sd[k] == n;
                if is_stale_object(last, ids) {
                    assert(stale_objects(s, ids)[k] == n);
                } else {
                    assert(stale_objects(s, ids) == sd);
                }
            } else {
                assert(stale_objects(s, ids) == sd.push(n));
                assert(stale_objects(s, ids)[sd.len() as int] == n);
            }
        }
    }
}

/// Reconciliation is a set difference: once the stale per-object files are
/// deleted, the module files left are those of the discovered objects and
/// the aggregator; where every object has a file and the aggregator exists,
/// they are exactly the objects and the aggregator.
pub proof fn lemma_reconcile_leaves_discovered(s: Seq<EntryView>, ids: Set<Seq<char>>)
    ensures
        module_stems_left(s, stale_objects(s, ids)) == module_stems(s).intersect(ids.insert("mod"@)),
        ids.insert("mod"@).subset_of(module_stems(s)) ==> module_stems_left(s, stale_objects(s, ids))
            == ids.insert("mod"@),
{
    let d = stale_objects(s, ids);
    assert forall|x: Seq<char>| module_stems_left(s, d).contains(x) <==> module_stems(s).intersect(ids.insert("mod"@)).contains(x) by {
        if module_stems_left(s, d).contains(x) {
            let i = choose|i: int| 0 <= i < s.len() && is_module_file(s[i]) && !d.contains(s[i].name) && #[trigger] module_stem(s[i]) == x;
            lemma_stale_objects_members(s, ids, s[i].name);
            assert(!is_stale_object(s[i], ids));
        }
        if module_stems(s).intersect(ids.insert("mod"@)).contains(x) {
            let i = choose|i: int| 0 <= i < s.len() && is_module_file(s[i]) && #[trigger] module_stem(s[i]) == x;
            lemma_stale_objects_members(s, ids, s[i].name);
            if d.contains(s[i].name) {
                let j = choose|j: int| 0 <= j < s.len() && #[trigger] is_stale_object(s[j], ids) && s[j].name == s[i].name;
                assert(module_stem(s[j]) == x);
            }
        }
    }
    assert(module_stems_left(s, d) =~= module_stems(s).intersect(ids.insert("mod"@)));
    if ids.insert("mod"@).subset_of(module_stems(s)) {
        assert(module_stems(s).intersect(ids.insert("mod"@)) =~= ids.insert("mod"@));
    }
}

} // verus!
