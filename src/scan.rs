//! Staleness of shader source pairs and the compile plan for a source directory.
use vstd::prelude::*;
use vstd::string::StringExecFns;
use crate::error::{BuildError, BuildErrorView};
use crate::listing::{
    DirEntry, EntryView, entries_view, files_with_ext, lookup, join_spec, with_extension,
    stem_of, for_each_file_ext_in_dir, find_entry, join, name_stem, name_with_extension,
};

verus! {

/// Extension of vertex sources.
pub open spec fn vert_ext() -> Seq<char> {
    seq!['v', 'e', 'r', 't']
}

/// Extension of fragment sources.
pub open spec fn frag_ext() -> Seq<char> {
    seq!['f', 'r', 'a', 'g']
}

/// Extension of generated modules.
pub open spec fn rs_ext() -> Seq<char> {
    seq!['r', 's']
}

/// An artifact is stale when it is absent, or when either source is
/// strictly newer than it.
pub open spec fn stale(vert_mtime: int, frag_mtime: int, artifact_mtime: Option<int>) -> bool {
    match artifact_mtime {
        None => true,
        Some(a) => vert_mtime > a || frag_mtime > a,
    }
}

/// Whether the artifact of a source pair must be compiled again, from the
/// modification times of the two sources and of the artifact, if it exists.
/// Equal times leave the artifact fresh.
pub fn needs_build(vert_mtime: i128, frag_mtime: i128, artifact_mtime: Option<i128>) -> (r: bool)
    ensures
        r == stale(vert_mtime as int, frag_mtime as int, match artifact_mtime { Some(a) => Some(a as int), None => None }),
        artifact_mtime is None ==> r,
        artifact_mtime matches Some(a) ==> (r <==> (vert_mtime > a || frag_mtime > a)),
{
    match artifact_mtime {
        None => true,
        Some(a) => vert_mtime > a || frag_mtime > a,
    }
}

/// One compilation of a source pair: the pair's stem and the three paths
/// handed to the compiler.
#[derive(Debug)]
pub struct CompileJob {
    pub stem: String,
    pub vert: String,
    pub frag: String,
    pub artifact: String,
}

/// The model of a `CompileJob`.
pub struct JobView {
    pub stem: Seq<char>,
    pub vert: Seq<char>,
    pub frag: Seq<char>,
    pub artifact: Seq<char>,
}

impl View for CompileJob {
    type V = JobView;

    open spec fn view(&self) -> JobView {
        JobView { stem: self.stem@, vert: self.vert@, frag: self.frag@, artifact: self.artifact@ }
    }
}

/// The models of a list of jobs.
pub open spec fn jobs_view(v: Seq<CompileJob>) -> Seq<JobView> {
    v.map_values(|j: CompileJob| j@)
}

/// What a pass over a source directory does: compile `jobs` in order, then
/// stop with `fault` if a source pair is malformed.
#[derive(Debug)]
pub struct CompilePlan {
    pub jobs: Vec<CompileJob>,
    pub fault: Option<BuildError>,
}

/// The error that reports a malformed pair.
pub open spec fn pair_fault(frag_path: Seq<char>, present: bool) -> BuildErrorView {
    if present {
        BuildErrorView::FragmentNotFile { path: frag_path }
    } else {
        BuildErrorView::MissingFragment { path: frag_path }
    }
}

/// The job for the vertex source `v` of a well-formed pair.
pub open spec fn job_for(v: EntryView, sdir: Seq<char>, gdir: Seq<char>) -> JobView {
    let stem = stem_of(v.name, vert_ext());
    JobView {
        stem,
        vert: join_spec(sdir, v.name),
        frag: join_spec(sdir, with_extension(stem, frag_ext())),
        artifact: join_spec(gdir, with_extension(stem, rs_ext())),
    }
}

/// Whether the pair of vertex source `v` and fragment source `f` is stale
/// against the artifact listing `arts`.
pub open spec fn pair_stale(v: EntryView, f: EntryView, arts: Seq<EntryView>) -> bool {
    let aname = with_extension(stem_of(v.name, vert_ext()), rs_ext());
    stale(
        v.mtime,
        f.mtime,
        match lookup(arts, aname) {
            Some(a) => Some(a.mtime),
            None => None,
        },
    )
}

/// The jobs and the fault of a pass over the vertex sources `verts`, in order:
/// each stale pair is compiled, and the first vertex source without a regular
/// fragment file beside it ends the pass.
pub open spec fn plan_from(
    verts: Seq<EntryView>,
    srcs: Seq<EntryView>,
    arts: Seq<EntryView>,
    sdir: Seq<char>,
    gdir: Seq<char>,
) -> (Seq<JobView>, Option<BuildErrorView>)
    decreases verts.len(),
{
    if verts.len() == 0 {
        (seq![], None)
    } else {
        let v = verts[0];
        let fname = with_extension(stem_of(v.name, vert_ext()), frag_ext());
        match lookup(srcs, fname) {
            None => (seq![], Some(pair_fault(join_spec(sdir, fname), false))),
            Some(f) => if !f.is_file {
                (seq![], Some(pair_fault(join_spec(sdir, fname), true)))
            } else {
                let rest = plan_from(verts.drop_first(), srcs, arts, sdir, gdir);
                if pair_stale(v, f, arts) {
                    (seq![job_for(v, sdir, gdir)] + rest.0, rest.1)
                } else {
                    rest
                }
            },
        }
    }
}

/// The plan for the source listing `srcs` of directory `sdir`, against the
/// listing `arts` of the generated directory `gdir`.
pub open spec fn plan_spec(
    srcs: Seq<EntryView>,
    arts: Seq<EntryView>,
    sdir: Seq<char>,
    gdir: Seq<char>,
) -> (Seq<JobView>, Option<BuildErrorView>) {
    plan_from(files_with_ext(srcs, vert_ext()), srcs, arts, sdir, gdir)
}

/// Plans a pass over a shader directory: `sources` is the listing of
/// `shaders_dir`, `artifacts` that of `generated_dir`.
pub fn compile_shaders(
    sources: &Vec<DirEntry>,
    artifacts: &Vec<DirEntry>,
    shaders_dir: &str,
    generated_dir: &str,
) -> (r: CompilePlan)
    ensures
        (jobs_view(r.jobs@), fault_view(r.fault)) == plan_spec(
            entries_view(sources@),
            entries_view(artifacts@),
            shaders_dir@,
            generated_dir@,
        ),
{
    proof {
        reveal_strlit("vert");
        reveal_strlit("frag");
        reveal_strlit("rs");
        assert("vert"@ =~= vert_ext());
        assert("frag"@ =~= frag_ext());
        assert("rs"@ =~= rs_ext());
    }
    let srcs = Ghost(entries_view(sources@));
    let arts = Ghost(entries_view(artifacts@));
    let verts = for_each_file_ext_in_dir(sources, "vert");
    let vs = Ghost(entries_view(verts@));
    proof {
        crate::listing::lemma_files_with_ext_members(srcs@, vert_ext());
    }
    let mut jobs: Vec<CompileJob> = Vec::new();
    let mut i: usize = 0;
    assert(vs@.subrange(0, vs@.len() as int) =~= vs@);
    while i < verts.len()
        invariant
            i <= verts@.len(),
            vs@ == entries_view(verts@),
            srcs@ == entries_view(sources@),
            arts@ == entries_view(artifacts@),
            "vert"@ == vert_ext(),
            "frag"@ == frag_ext(),
            "rs"@ == rs_ext(),
            forall|k: int| 0 <= k < vs@.len() ==> (#[trigger] vs@[k]).is_file && has_ext_vert(vs@[k].name),
            plan_spec(srcs@, arts@, shaders_dir@, generated_dir@) == ({
                let rest = plan_from(vs@.subrange(i as int, vs@.len() as int), srcs@, arts@, shaders_dir@, generated_dir@);
                (jobs_view(jobs@) + rest.0, rest.1)
            }),
        decreases verts@.len() - i,
    {
        let v = &verts[i];
        let ghost sub = vs@.subrange(i as int, vs@.len() as int);
        assert(sub.drop_first() =~= vs@.subrange(i + 1, vs@.len() as int));
        assert(sub[0] == v@);
        assert(vs@[i as int].is_file && has_ext_vert(vs@[i as int].name));
        let stem = name_stem(v.name.as_str(), "vert");
        let fname = name_with_extension(stem.as_str(), "frag");
        match find_entry(sources, fname.as_str()) {
            None => {
                let path = join(shaders_dir, fname.as_str());
                assert(jobs_view(jobs@) + seq![] =~= jobs_view(jobs@));
                return CompilePlan { jobs, fault: Some(BuildError::MissingFragment { path }) };
            },
            Some(f) => {
                if !f.is_file {
                    let path = join(shaders_dir, fname.as_str());
                    assert(jobs_view(jobs@) + seq![] =~= jobs_view(jobs@));
                    return CompilePlan { jobs, fault: Some(BuildError::FragmentNotFile { path }) };
                }
                let aname = name_with_extension(stem.as_str(), "rs");
                let art_mtime = match find_entry(artifacts, aname.as_str()) {
                    None => None,
                    Some(a) => Some(a.mtime),
                };
                if needs_build(v.mtime, f.mtime, art_mtime) {
                    let job = CompileJob {
                        stem: stem.clone(),
                        vert: join(shaders_dir, v.name.as_str()),
                        frag: join(shaders_dir, fname.as_str()),
                        artifact: join(generated_dir, aname.as_str()),
                    };
                    let ghost old_jobs = jobs@;
                    jobs.push(job);
                    assert(jobs_view(jobs@) =~= jobs_view(old_jobs) + seq![job_for(v@, shaders_dir@, generated_dir@)]);
                    assert(jobs_view(jobs@) + plan_from(vs@.subrange(i + 1, vs@.len() as int), srcs@, arts@, shaders_dir@, generated_dir@).0
                        =~= jobs_view(old_jobs) + (seq![job_for(v@, shaders_dir@, generated_dir@)] + plan_from(vs@.subrange(i + 1, vs@.len() as int), srcs@, arts@, shaders_dir@, generated_dir@).0));
                }
            },
        }
        i = i + 1;
    }
    assert(jobs_view(jobs@) + seq![] =~= jobs_view(jobs@));
    CompilePlan { jobs, fault: None }
}

/// The model of an optional error.
pub open spec fn fault_view(f: Option<BuildError>) -> Option<BuildErrorView> {
    match f {
        Some(e) => Some(e@),
        None => None,
    }
}

/// The artifact listing once each job has written its artifact at time `t`:
/// the new artifacts stand before the listing's old entries.
pub open spec fn artifacts_after(arts: Seq<EntryView>, jobs: Seq<JobView>, t: int) -> Seq<EntryView> {
    jobs.map_values(|j: JobView| EntryView { name: with_extension(j.stem, rs_ext()), is_file: true, mtime: t })
        + arts
}

/// A listing holds the artifact of stem `stem`.
pub open spec fn has_artifact(s: Seq<EntryView>, stem: Seq<char>) -> bool {
    exists|m: int| 0 <= m < s.len() && s[m].name == with_extension(stem, rs_ext())
}

proof fn lemma_fresh_pass(
    verts: Seq<EntryView>,
    srcs: Seq<EntryView>,
    arts: Seq<EntryView>,
    written: Seq<EntryView>,
    sdir: Seq<char>,
    gdir: Seq<char>,
    t: int,
)
    requires
        plan_from(verts, srcs, arts, sdir, gdir).1 is None,
        forall|k: int| 0 <= k < verts.len() ==> (#[trigger] verts[k]).mtime <= t,
        forall|k: int| 0 <= k < srcs.len() ==> (#[trigger] srcs[k]).mtime <= t,
        forall|k: int| 0 <= k < written.len() ==> (#[trigger] written[k]).mtime >= t,
        forall|k: int| 0 <= k < plan_from(verts, srcs, arts, sdir, gdir).0.len() ==> has_artifact(
            written,
            (#[trigger] plan_from(verts, srcs, arts, sdir, gdir).0[k]).stem,
        ),
    ensures
        plan_from(verts, srcs, written + arts, sdir, gdir) == (Seq::<JobView>::empty(), None::<BuildErrorView>),
    decreases verts.len(),
{
    if verts.len() > 0 {
        let v = verts[0];
        let stem = stem_of(v.name, vert_ext());
        let fname = with_extension(stem, frag_ext());
        let aname = with_extension(stem, rs_ext());
        let f = lookup(srcs, fname)->Some_0;
        crate::listing::lemma_lookup_member(srcs, fname);
        let i = choose|i: int| 0 <= i < srcs.len() && srcs[i] == f && f.name == fname;
        assert(srcs[i].mtime <= t);
        let rest_v = verts.drop_first();
        let jobs = plan_from(verts, srcs, arts, sdir, gdir).0;
        let rest = plan_from(rest_v, srcs, arts, sdir, gdir);
        assert forall|k: int| 0 <= k < rest_v.len() implies (#[trigger] rest_v[k]).mtime <= t by {
            assert(rest_v[k] == verts[k + 1]);
        }
        crate::listing::lemma_lookup_append(written, arts, aname);
        crate::listing::lemma_lookup_member(written, aname);
        if pair_stale(v, f, arts) {
            assert(jobs == seq![job_for(v, sdir, gdir)] + rest.0);
            assert(jobs[0].stem == stem);
            assert(has_artifact(written, jobs[0].stem));
            let m = choose|m: int| 0 <= m < written.len() && written[m].name == with_extension(jobs[0].stem, rs_ext());
            assert(written[m].name == aname);
            assert(lookup(written, aname) is Some);
            assert forall|k: int| 0 <= k < rest.0.len() implies has_artifact(written, (#[trigger] rest.0[k]).stem) by {
                assert(rest.0[k] == jobs[k + 1]);
            }
        } else {
            assert(jobs == rest.0);
        }
        if let Some(e) = lookup(written, aname) {
            let m = choose|m: int| 0 <= m < written.len() && written[m] == e && e.name == aname;
            assert(written[m].mtime >= t);
        }
        assert(!pair_stale(v, f, written + arts));
        lemma_fresh_pass(rest_v, srcs, arts, written, sdir, gdir, t);
    }
}

/// A second pass with no source changed compiles nothing: once every job
/// of a successful pass has written its artifact at a time `t` no earlier
/// than any source's modification, the plan for the same sources is empty
/// and without fault.
pub proof fn lemma_second_pass_compiles_nothing(
    srcs: Seq<EntryView>,
    arts: Seq<EntryView>,
    sdir: Seq<char>,
    gdir: Seq<char>,
    t: int,
)
    requires
        plan_spec(srcs, arts, sdir, gdir).1 is None,
        forall|k: int| 0 <= k < srcs.len() ==> (#[trigger] srcs[k]).mtime <= t,
    ensures
        plan_spec(srcs, artifacts_after(arts, plan_spec(srcs, arts, sdir, gdir).0, t), sdir, gdir) == (
            Seq::<JobView>::empty(),
            None::<BuildErrorView>,
        ),
{
    let verts = files_with_ext(srcs, vert_ext());
    let jobs = plan_spec(srcs, arts, sdir, gdir).0;
    let written = jobs.map_values(|j: JobView| EntryView { name: with_extension(j.stem, rs_ext()), is_file: true, mtime: t });
    crate::listing::lemma_files_with_ext_mtime_bound(srcs, vert_ext(), t);
    assert(jobs == plan_from(verts, srcs, arts, sdir, gdir).0);
    assert forall|k: int| 0 <= k < plan_from(verts, srcs, arts, sdir, gdir).0.len() implies has_artifact(
        written,
        (#[trigger] plan_from(verts, srcs, arts, sdir, gdir).0[k]).stem,
    ) by {
        assert(written.len() == jobs.len());
        assert(written[k].name == with_extension(jobs[k].stem, rs_ext()));
        assert(0 <= k < written.len() && written[k].name == with_extension(
            plan_from(verts, srcs, arts, sdir, gdir).0[k].stem,
            rs_ext(),
        ));
    }
    lemma_fresh_pass(verts, srcs, arts, written, sdir, gdir, t);
}

impl CompilePlan {
    /// The result of a pass once every job of the plan has compiled: the
    /// plan's fault if it has one, else whether anything was compiled.
    pub fn finish(self) -> (r: Result<bool, BuildError>)
        ensures
            r == (match self.fault {
                Some(e) => Err(e),
                None => Ok(self.jobs@.len() > 0),
            }),
    {
        match self.fault {
            Some(e) => Err(e),
            None => Ok(self.jobs.len() > 0),
        }
    }
}

/// How a run of the shader compiler ended.
pub enum CompilerRun {
    /// The process could not be started.
    SpawnFailed { reason: String },
    /// The process ran; `stderr` is its standard error where that was valid text.
    Exited { success: bool, stderr: Option<String> },
}

/// The command line of a job: the compiler, then the three paths in quotes.
pub open spec fn command_line_spec(program: Seq<char>, job: JobView) -> Seq<char> {
    program + " \""@ + job.vert + "\" \""@ + job.frag + "\" \""@ + job.artifact + "\""@
}

/// The command line that runs `program` on a job, for error reports.
pub fn command_line(program: &str, job: &CompileJob) -> (r: String)
    ensures
        r@ == command_line_spec(program@, job@),
{
    let r = program.to_owned().concat(" \"").concat(job.vert.as_str()).concat("\" \"").concat(
        job.frag.as_str(),
    ).concat("\" \"").concat(job.artifact.as_str()).concat("\"");
    r
}

/// The result of one compiler run on `job`: success when the compiler
/// exited with success, else the error that carries the command line and
/// what the compiler reported.
pub fn compiler_result(program: &str, job: &CompileJob, run: CompilerRun) -> (r: Result<(), BuildError>)
    ensures
        match run {
            CompilerRun::SpawnFailed { reason } => r matches Err(e) && e@ == (BuildErrorView::CompilerSpawn {
                command: command_line_spec(program@, job@),
                reason: reason@,
            }),
            CompilerRun::Exited { success, stderr } => if success {
                r is Ok
            } else {
                r matches Err(e) && e@ == (BuildErrorView::CompilerFailed {
                    command: command_line_spec(program@, job@),
                    stderr: match stderr {
                        Some(s) => Some(s@),
                        None => None,
                    },
                })
            },
        },
{
    match run {
        CompilerRun::SpawnFailed { reason } => {
            Err(BuildError::CompilerSpawn { command: command_line(program, job), reason })
        },
        CompilerRun::Exited { success, stderr } => {
            if success {
                Ok(())
            } else {
                Err(BuildError::CompilerFailed { command: command_line(program, job), stderr })
            }
        },
    }
}

/// A vertex source's name.
pub open spec fn has_ext_vert(name: Seq<char>) -> bool {
    crate::listing::has_extension(name, vert_ext())
}

} // verus!
