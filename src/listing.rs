//! Directory listings as plain values, and the file-name rules used on them.
use vstd::prelude::*;
use vstd::string::StrSliceExecFns;

verus! {

/// One entry read from a directory: its file name, whether it is a regular
/// file, and its modification time in nanoseconds relative to the Unix epoch.
#[derive(Clone, Debug)]
pub struct DirEntry {
    pub name: String,
    pub is_file: bool,
    pub mtime: i128,
}

/// The model of a directory entry.
pub struct EntryView {
    pub name: Seq<char>,
    pub is_file: bool,
    pub mtime: int,
}

impl View for DirEntry {
    type V = EntryView;

    open spec fn view(&self) -> EntryView {
        EntryView { name: self.name@, is_file: self.is_file, mtime: self.mtime as int }
    }
}

/// The models of the entries of a listing, in order.
pub open spec fn entries_view(v: Seq<DirEntry>) -> Seq<EntryView> {
    v.map_values(|e: DirEntry| e@)
}

/// An extension is a nonempty word without a dot.
pub open spec fn valid_extension(ext: Seq<char>) -> bool {
    ext.len() > 0 && forall|i: int| 0 <= i < ext.len() ==> ext[i] != '.'
}

/// `name` ends in `.ext` and something stands before that dot, so that the
/// dot is not the leading dot of a hidden file.
pub open spec fn has_extension(name: Seq<char>, ext: Seq<char>) -> bool {
    &&& name.len() > ext.len() + 1
    &&& name[name.len() - ext.len() - 1] == '.'
    &&& name.subrange(name.len() - ext.len(), name.len() as int) == ext
}

/// The stem of a name that has extension `ext`.
pub open spec fn stem_of(name: Seq<char>, ext: Seq<char>) -> Seq<char> {
    name.subrange(0, name.len() - ext.len() - 1)
}

/// The file name with stem `stem` and extension `ext`.
pub open spec fn with_extension(stem: Seq<char>, ext: Seq<char>) -> Seq<char> {
    stem + seq!['.'] + ext
}

/// The entries of a listing that are regular files with extension `ext`, in order.
pub open spec fn files_with_ext(s: Seq<EntryView>, ext: Seq<char>) -> Seq<EntryView>
    decreases s.len(),
{
    if s.len() == 0 {
        s
    } else {
        let rest = files_with_ext(s.drop_last(), ext);
        let e = s.last();
        if e.is_file && has_extension(e.name, ext) {
            rest.push(e)
        } else {
            rest
        }
    }
}

/// Every entry that `files_with_ext` keeps is a regular file with that extension.
pub proof fn lemma_files_with_ext_members(s: Seq<EntryView>, ext: Seq<char>)
    ensures
        forall|k: int|
            0 <= k < files_with_ext(s, ext).len() ==> #[trigger] files_with_ext(s, ext)[k].is_file
                && has_extension(files_with_ext(s, ext)[k].name, ext),
    decreases s.len(),
{
    if s.len() > 0 {
        lemma_files_with_ext_members(s.drop_last(), ext);
        let rest = files_with_ext(s.drop_last(), ext);
        assert forall|k: int| 0 <= k < files_with_ext(s, ext).len() implies #[trigger] files_with_ext(
            s,
            ext,
        )[k].is_file && has_extension(files_with_ext(s, ext)[k].name, ext) by {
            if k < rest.len() {
                assert(files_with_ext(s, ext)[k] == rest[k]);
            }
        }
    }
}

/// `files_with_ext` keeps a bound on modification times.
pub proof fn lemma_files_with_ext_mtime_bound(s: Seq<EntryView>, ext: Seq<char>, t: int)
    requires
        forall|k: int| 0 <= k < s.len() ==> (#[trigger] s[k]).mtime <= t,
    ensures
        forall|k: int| 0 <= k < files_with_ext(s, ext).len() ==> (#[trigger] files_with_ext(s, ext)[k]).mtime <= t,
    decreases s.len(),
{
    if s.len() > 0 {
        assert forall|k: int| 0 <= k < s.drop_last().len() implies (#[trigger] s.drop_last()[k]).mtime <= t by {
            assert(s.drop_last()[k] == s[k]);
        }
        lemma_files_with_ext_mtime_bound(s.drop_last(), ext, t);
        let rest = files_with_ext(s.drop_last(), ext);
        assert forall|k: int| 0 <= k < files_with_ext(s, ext).len() implies (#[trigger] files_with_ext(s, ext)[k]).mtime <= t by {
            if k < rest.len() {
                assert(files_with_ext(s, ext)[k] == rest[k]);
            }
        }
    }
}

/// The first entry of a listing named `name`.
pub open spec fn lookup(s: Seq<EntryView>, name: Seq<char>) -> Option<EntryView>
    decreases s.len(),
{
    if s.len() == 0 {
        None
    } else if s[0].name == name {
        Some(s[0])
    } else {
        lookup(s.drop_first(), name)
    }
}

/// The entry that `lookup` finds is in the listing and has that name, and
/// it finds one wherever the listing holds the name.
pub proof fn lemma_lookup_member(s: Seq<EntryView>, name: Seq<char>)
    ensures
        lookup(s, name) matches Some(e) ==> exists|i: int| 0 <= i < s.len() && s[i] == e && e.name == name,
        (exists|i: int| 0 <= i < s.len() && s[i].name == name) ==> lookup(s, name) is Some,
    decreases s.len(),
{
    if s.len() > 0 {
        lemma_lookup_member(s.drop_first(), name);
        if s[0].name != name {
            if let Some(e) = lookup(s, name) {
                let i = choose|i: int| 0 <= i < s.drop_first().len() && s.drop_first()[i] == e && e.name == name;
                assert(s[i + 1] == e);
            }
            if exists|i: int| 0 <= i < s.len() && s[i].name == name {
                let i = choose|i: int| 0 <= i < s.len() && s[i].name == name;
                assert(s.drop_first()[i - 1].name == name);
            }
        }
    }
}

/// Looking up in a listing placed before another finds the first one's
/// entry wherever it has one.
pub proof fn lemma_lookup_append(a: Seq<EntryView>, b: Seq<EntryView>, name: Seq<char>)
    ensures
        lookup(a + b, name) == (if lookup(a, name) is Some {
            lookup(a, name)
        } else {
            lookup(b, name)
        }),
    decreases a.len(),
{
    if a.len() == 0 {
        assert(a + b =~= b);
    } else {
        assert((a + b)[0] == a[0]);
        assert((a + b).drop_first() =~= a.drop_first() + b);
        lemma_lookup_append(a.drop_first(), b, name);
    }
}

/// The path of `name` inside directory `dir`.
pub open spec fn join_spec(dir: Seq<char>, name: Seq<char>) -> Seq<char> {
    if dir.len() == 0 {
        name
    } else if dir.last() == '/' {
        dir + name
    } else {
        dir + seq!['/'] + name
    }
}

/// Whether two strings hold the same characters.
pub fn str_eq(a: &str, b: &str) -> (r: bool)
    ensures
        r == (a@ == b@),
{
    let n = a.unicode_len();
    if n != b.unicode_len() {
        return false;
    }
    let mut i: usize = 0;
    while i < n
        invariant
            n == a@.len(),
            n == b@.len(),
            i <= n,
            a@.subrange(0, i as int) == b@.subrange(0, i as int),
        decreases n - i,
    {
        if a.get_char(i) != b.get_char(i) {
            return false;
        }
        assert(a@.subrange(0, i + 1) =~= a@.subrange(0, i as int).push(a@[i as int]));
        assert(b@.subrange(0, i + 1) =~= b@.subrange(0, i as int).push(b@[i as int]));
        i = i + 1;
    }
    assert(a@ =~= a@.subrange(0, n as int));
    assert(b@ =~= b@.subrange(0, n as int));
    true
}

/// Whether `name` has extension `ext`.
pub fn name_has_extension(name: &str, ext: &str) -> (r: bool)
    requires
        valid_extension(ext@),
    ensures
        r == has_extension(name@, ext@),
{
    let n = name.unicode_len();
    let k = ext.unicode_len();
    if n <= k || n - k < 2 {
        return false;
    }
    if name.get_char(n - k - 1) != '.' {
        return false;
    }
    let tail = name.substring_char(n - k, n);
    str_eq(tail, ext)
}

/// The stem of a name with extension `ext`.
pub fn name_stem(name: &str, ext: &str) -> (r: String)
    requires
        has_extension(name@, ext@),
    ensures
        r@ == stem_of(name@, ext@),
{
    let n = name.unicode_len();
    let k = ext.unicode_len();
    name.substring_char(0, n - k - 1).to_owned()
}

/// The file name made of `stem` and extension `ext`.
pub fn name_with_extension(stem: &str, ext: &str) -> (r: String)
    ensures
        r@ == with_extension(stem@, ext@),
{
    let mut r = stem.to_owned();
    r.append(".");
    r.append(ext);
    proof {
        reveal_strlit(".");
    }
    assert(r@ =~= with_extension(stem@, ext@));
    r
}

/// The path of `name` inside directory `dir`: `dir`, a separator unless
/// `dir` is empty or already ends in one, then `name`.
pub fn join(dir: &str, name: &str) -> (r: String)
    ensures
        r@ == join_spec(dir@, name@),
{
    let n = dir.unicode_len();
    let mut r = dir.to_owned();
    if n > 0 && dir.get_char(n - 1) != '/' {
        r.append("/");
        proof {
            reveal_strlit("/");
        }
    }
    r.append(name);
    assert(r@ =~= join_spec(dir@, name@));
    r
}

/// The regular files of a listing whose extension is `ext`, in listing order.
pub fn for_each_file_ext_in_dir(entries: &Vec<DirEntry>, ext: &str) -> (r: Vec<DirEntry>)
    requires
        valid_extension(ext@),
    ensures
        entries_view(r@) == files_with_ext(entries_view(entries@), ext@),
{
    let mut r: Vec<DirEntry> = Vec::new();
    let mut i: usize = 0;
    while i < entries.len()
        invariant
            i <= entries@.len(),
            valid_extension(ext@),
            entries_view(r@) == files_with_ext(entries_view(entries@.subrange(0, i as int)), ext@),
        decreases entries@.len() - i,
    {
        let e = &entries[i];
        proof {
            let s = entries_view(entries@.subrange(0, i + 1));
            assert(s.drop_last() =~= entries_view(entries@.subrange(0, i as int)));
            assert(s.last() == entries@[i as int]@);
        }
        if e.is_file && name_has_extension(e.name.as_str(), ext) {
            r.push(DirEntry { name: e.name.clone(), is_file: e.is_file, mtime: e.mtime });
            assert(entries_view(r@) =~= files_with_ext(entries_view(entries@.subrange(0, i as int)), ext@).push(e@));
        }
        i = i + 1;
    }
    assert(entries@.subrange(0, entries@.len() as int) =~= entries@);
    r
}

/// The first entry of a listing with the given name.
pub fn find_entry<'a>(entries: &'a Vec<DirEntry>, name: &str) -> (r: Option<&'a DirEntry>)
    ensures
        match r {
            Some(e) => lookup(entries_view(entries@), name@) == Some(e@),
            None => lookup(entries_view(entries@), name@) is None,
        },
{
    let mut i: usize = 0;
    assert(entries@.subrange(0, entries@.len() as int) =~= entries@);
    while i < entries.len()
        invariant
            i <= entries@.len(),
            lookup(entries_view(entries@), name@) == lookup(entries_view(entries@.subrange(i as int, entries@.len() as int)), name@),
        decreases entries@.len() - i,
    {
        proof {
            let s = entries_view(entries@.subrange(i as int, entries@.len() as int));
            assert(s.drop_first() =~= entries_view(entries@.subrange(i + 1, entries@.len() as int)));
            assert(s[0] == entries@[i as int]@);
        }
        if str_eq(entries[i].name.as_str(), name) {
            return Some(&entries[i]);
        }
        i = i + 1;
    }
    None
}

} // verus!
