//! Planning a batch: which inputs are skipped, which are rejected, and
//! where each output goes, decided before any image is read.

use vstd::prelude::*;
use crate::format::OutputFormat;
use crate::naming::{
    image_extension, is_image_extension, opt_view, output_name_for_stem, recolored_stem,
    stem_output_name, stem_recolored,
};
use crate::text::{chars_of, same_chars};

verus! {

/// What the planner knows of one input path (after expansion, sorting and
/// removal of duplicates).
pub struct Candidate {
    /// The stem of the file name (the name without its extension), when the
    /// path has one that is valid UTF-8.
    pub stem: Option<String>,
    /// The extension of the file name, without its dot, when the path has
    /// one that is valid UTF-8.
    pub extension: Option<String>,
    /// Identifies the directory the path lies in: equal for inputs in the
    /// same directory, different otherwise.
    pub directory: usize,
    /// The path names a regular file.
    pub is_file: bool,
    /// Something already exists where this input's output would be written.
    pub output_exists: bool,
}

/// How outputs are named.
pub struct NamingOptions {
    pub normalize_name: bool,
    pub format: OutputFormat,
    pub palette_name: String,
    pub neutral_only: bool,
    /// How lambda is written, when it is not the default.
    pub lambda: Option<String>,
    /// How mix is written, when it is not the default.
    pub mix: Option<String>,
    pub palette_name_only: bool,
}

/// One planned recolouring: the input's position among the candidates and
/// the output's file name (in the input's directory).
pub struct Job {
    pub input: usize,
    pub output_name: String,
}

/// Why a batch is refused, naming the candidate at fault.
pub enum JobError {
    /// The path is not a regular file.
    NotAFile(usize),
    /// The file is not an image the command reads.
    Unsupported(usize),
    /// The file name has no stem that is valid UTF-8, so no output name can
    /// be formed from it.
    InvalidName(usize),
    /// The output name could not be formed; the message says why.
    Naming(String),
    /// The output is the same as an earlier input's.
    DuplicateOutput(usize),
    /// The output exists and overwriting was not asked for.
    OutputExists(usize),
}

/// The contents of a candidate.
pub ghost struct CandidateView {
    pub stem: Option<Seq<char>>,
    pub extension: Option<Seq<char>>,
    pub directory: nat,
    pub is_file: bool,
    pub output_exists: bool,
}

/// The contents of the naming options.
pub ghost struct OptionsView {
    pub normalize_name: bool,
    pub format: OutputFormat,
    pub palette_name: Seq<char>,
    pub neutral_only: bool,
    pub lambda: Option<Seq<char>>,
    pub mix: Option<Seq<char>>,
    pub palette_name_only: bool,
}

/// The contents of a job error.
pub ghost enum JobErrorView {
    NotAFile(nat),
    Unsupported(nat),
    InvalidName(nat),
    Naming(Seq<char>),
    DuplicateOutput(nat),
    OutputExists(nat),
}

impl View for Candidate {
    type V = CandidateView;

    open spec fn view(&self) -> CandidateView {
        CandidateView {
            stem: match self.stem {
                Some(n) => Some(n@),
                None => None,
            },
            extension: match self.extension {
                Some(e) => Some(e@),
                None => None,
            },
            directory: self.directory as nat,
            is_file: self.is_file,
            output_exists: self.output_exists,
        }
    }
}

impl View for NamingOptions {
    type V = OptionsView;

    open spec fn view(&self) -> OptionsView {
        OptionsView {
            normalize_name: self.normalize_name,
            format: self.format,
            palette_name: self.palette_name@,
            neutral_only: self.neutral_only,
            lambda: match self.lambda {
                Some(l) => Some(l@),
                None => None,
            },
            mix: match self.mix {
                Some(m) => Some(m@),
                None => None,
            },
            palette_name_only: self.palette_name_only,
        }
    }
}

impl View for JobError {
    type V = JobErrorView;

    open spec fn view(&self) -> JobErrorView {
        match self {
            JobError::NotAFile(i) => JobErrorView::NotAFile(*i as nat),
            JobError::Unsupported(i) => JobErrorView::Unsupported(*i as nat),
            JobError::InvalidName(i) => JobErrorView::InvalidName(*i as nat),
            JobError::Naming(m) => JobErrorView::Naming(m@),
            JobError::DuplicateOutput(i) => JobErrorView::DuplicateOutput(*i as nat),
            JobError::OutputExists(i) => JobErrorView::OutputExists(*i as nat),
        }
    }
}

/// The candidates, by their views.
pub open spec fn candidates_view(candidates: Seq<Candidate>) -> Seq<CandidateView> {
    candidates.map_values(|c: Candidate| c@)
}

/// The jobs, as (input, output name) pairs.
pub open spec fn jobs_view(jobs: Seq<Job>) -> Seq<(nat, Seq<char>)> {
    jobs.map_values(|j: Job| (j.input as nat, j.output_name@))
}

/// The candidate is skipped: its stem marks it as an earlier output.
#[verifier::opaque]
pub open spec fn is_skipped(c: CandidateView, options: OptionsView) -> bool {
    match c.stem {
        Some(stem) => stem_recolored(stem, options.palette_name),
        None => false,
    }
}

/// The candidate's file has an image extension.
#[verifier::opaque]
pub open spec fn is_supported(c: CandidateView) -> bool {
    match c.extension {
        Some(extension) => is_image_extension(extension),
        None => false,
    }
}

/// The output name of a candidate with a stem.
#[verifier::opaque]
pub open spec fn candidate_output(c: CandidateView, options: OptionsView) -> Result<
    Seq<char>,
    Seq<char>,
> {
    stem_output_name(
        c.stem->0,
        options.normalize_name,
        options.format,
        options.palette_name,
        options.neutral_only,
        options.lambda,
        options.mix,
        options.palette_name_only,
    )
}

/// The positions among the first `n` candidates of those that are skipped.
pub open spec fn skipped_spec(cs: Seq<CandidateView>, options: OptionsView, n: nat) -> Seq<nat>
    decreases n,
{
    if n == 0 {
        seq![]
    } else {
        let earlier = skipped_spec(cs, options, (n - 1) as nat);
        if is_skipped(cs[n - 1], options) {
            earlier.push((n - 1) as nat)
        } else {
            earlier
        }
    }
}

/// Some earlier job writes to the same directory under the same name.
pub open spec fn clashes(
    cs: Seq<CandidateView>,
    jobs: Seq<(nat, Seq<char>)>,
    c: CandidateView,
    output: Seq<char>,
) -> bool {
    exists|k: int| 0 <= k < jobs.len() && #[trigger] cs[jobs[k].0 as int].directory == c.directory
        && jobs[k].1 == output
}

/// What becomes of candidate `i`, given the jobs planned before it: skipped
/// (`None`), a job writing to the output name given, or the refusal for the
/// first check it fails (not a file, not an image, no UTF-8 stem, cannot be
/// named, clashes with an earlier output, would overwrite without
/// permission).
pub open spec fn candidate_step(
    cs: Seq<CandidateView>,
    jobs: Seq<(nat, Seq<char>)>,
    i: nat,
    options: OptionsView,
    overwrite: bool,
) -> Result<Option<Seq<char>>, JobErrorView> {
    let c = cs[i as int];
    if is_skipped(c, options) {
        Ok(None)
    } else if !c.is_file {
        Err(JobErrorView::NotAFile(i))
    } else if !is_supported(c) {
        Err(JobErrorView::Unsupported(i))
    } else if c.stem is None {
        Err(JobErrorView::InvalidName(i))
    } else {
        match candidate_output(c, options) {
            Err(message) => Err(JobErrorView::Naming(message)),
            Ok(output) => if clashes(cs, jobs, c, output) {
                Err(JobErrorView::DuplicateOutput(i))
            } else if c.output_exists && !overwrite {
                Err(JobErrorView::OutputExists(i))
            } else {
                Ok(Some(output))
            },
        }
    }
}

/// The jobs for the first `n` candidates, in order, or the refusal for the
/// first candidate that fails a check.
pub open spec fn jobs_spec(cs: Seq<CandidateView>, options: OptionsView, overwrite: bool, n: nat)
    -> Result<Seq<(nat, Seq<char>)>, JobErrorView>
    decreases n,
{
    if n == 0 {
        Ok(seq![])
    } else {
        let i = (n - 1) as nat;
        match jobs_spec(cs, options, overwrite, i) {
            Err(e) => Err(e),
            Ok(jobs) => match candidate_step(cs, jobs, i, options, overwrite) {
                Err(e) => Err(e),
                Ok(None) => Ok(jobs),
                Ok(Some(output)) => Ok(jobs.push((i, output))),
            },
        }
    }
}

/// A planned job is sound: its input is not skipped, is a file with an
/// image extension and a stem, its output is the input's output name, and
/// the output does not exist unless overwriting was asked for.
pub open spec fn job_sound(
    cs: Seq<CandidateView>,
    options: OptionsView,
    overwrite: bool,
    job: (nat, Seq<char>),
) -> bool {
    let c = cs[job.0 as int];
    &&& !is_skipped(c, options)
    &&& c.is_file
    &&& is_supported(c)
    &&& c.stem is Some
    &&& candidate_output(c, options) == Ok::<_, Seq<char>>(job.1)
    &&& !c.output_exists || overwrite
}

/// A plan accepted for a batch holds, in input order, exactly one job for
/// every input that is not skipped, each sound, and no two jobs write the
/// same output (same directory, same name).
pub proof fn law_accepted_plan(cs: Seq<CandidateView>, options: OptionsView, overwrite: bool, n: nat)
    requires
        n <= cs.len(),
    ensures
        jobs_spec(cs, options, overwrite, n) matches Ok(js) ==> {
            &&& forall|k: int| 0 <= k < js.len() ==> #[trigger] js[k].0 < n
            &&& forall|k: int, l: int| 0 <= k < l < js.len() ==> js[k].0 < js[l].0
            &&& forall|k: int| 0 <= k < js.len() ==> job_sound(cs, options, overwrite, #[trigger] js[k])
            &&& forall|i: nat| i < n && !is_skipped(cs[i as int], options) ==> exists|k: int|
                0 <= k < js.len() && #[trigger] js[k].0 == i
            &&& forall|k: int, l: int|
                0 <= k < l < js.len() ==> !(cs[js[k].0 as int].directory == cs[js[l].0 as int].directory
                    && js[k].1 == js[l].1)
        },
    decreases n,
{
    if n > 0 {
        let i = (n - 1) as nat;
        law_accepted_plan(cs, options, overwrite, i);
        if let Ok(jobs) = jobs_spec(cs, options, overwrite, i) {
            if let Ok(Some(output)) = candidate_step(cs, jobs, i, options, overwrite) {
                let js = jobs.push((i, output));
                assert(js[js.len() - 1] == (i, output));
                assert forall|k: int| 0 <= k < js.len() implies job_sound(
                    cs,
                    options,
                    overwrite,
                    #[trigger] js[k],
                ) by {
                    if k < jobs.len() {
                        assert(js[k] == jobs[k]);
                    }
                }
                assert forall|j: nat| j < n && !is_skipped(cs[j as int], options) implies exists|
                    k: int,
                | 0 <= k < js.len() && #[trigger] js[k].0 == j by {
                    if j < i {
                        let k = choose|k: int| 0 <= k < jobs.len() && #[trigger] jobs[k].0 == j;
                        assert(js[k] == jobs[k]);
                    } else {
                        assert(js[js.len() - 1].0 == j);
                    }
                }
                assert forall|k: int, l: int| 0 <= k < l < js.len() implies !(
                cs[js[k].0 as int].directory == cs[js[l].0 as int].directory && js[k].1 == js[l].1)
                    by {
                    assert(js[k] == jobs[k]);
                    if l < jobs.len() {
                        assert(js[l] == jobs[l]);
                    } else {
                        assert(!clashes(cs, jobs, cs[i as int], output));
                        if cs[jobs[k].0 as int].directory == cs[i as int].directory && jobs[k].1
                            == output {
                            assert(exists|k: int|
                                0 <= k < jobs.len() && #[trigger] cs[jobs[k].0 as int].directory
                                    == cs[i as int].directory && jobs[k].1 == output);
                        }
                    }
                }
                assert forall|k: int, l: int| 0 <= k < l < js.len() implies js[k].0 < js[l].0 by {
                    assert(js[k] == jobs[k]);
                    if l < jobs.len() {
                        assert(js[l] == jobs[l]);
                    }
                }
                assert forall|k: int| 0 <= k < js.len() implies #[trigger] js[k].0 < n by {
                    if k < jobs.len() {
                        assert(js[k] == jobs[k]);
                    }
                }
            } else if let Ok(None) = candidate_step(cs, jobs, i, options, overwrite) {
                assert forall|j: nat| j < n && !is_skipped(cs[j as int], options) implies exists|
                    k: int,
                | 0 <= k < jobs.len() && #[trigger] jobs[k].0 == j by {
                    assert(j < i);
                }
            }
        }
    }
}

/// The candidate passes every check that concerns it alone: it is a file
/// with an image extension and a stem, its output name can be formed, and
/// the output does not exist unless overwriting was asked for.
pub open spec fn passes_checks(c: CandidateView, options: OptionsView, overwrite: bool) -> bool {
    &&& c.is_file
    &&& is_supported(c)
    &&& c.stem is Some
    &&& candidate_output(c, options) is Ok
    &&& !c.output_exists || overwrite
}

/// Candidates `j` and `i` are written to the same output: the same
/// directory and the same output name.
pub open spec fn same_output(cs: Seq<CandidateView>, options: OptionsView, j: int, i: int) -> bool {
    &&& cs[j].directory == cs[i].directory
    &&& candidate_output(cs[j], options) == candidate_output(cs[i], options)
}

/// Candidate `i` is one a batch is refused for: it is not skipped, and it
/// fails a check of its own or its output is that of an earlier candidate
/// that is not skipped and passes its checks.
pub open spec fn refused_at(cs: Seq<CandidateView>, options: OptionsView, overwrite: bool, i: int) -> bool {
    &&& !is_skipped(cs[i], options)
    &&& (!passes_checks(cs[i], options, overwrite) || exists|j: int|
        0 <= j < i && !is_skipped(cs[j], options) && passes_checks(cs[j], options, overwrite)
            && #[trigger] same_output(cs, options, j, i))
}

/// A batch is refused exactly when some input that is not skipped is not a
/// file, is not an image, cannot be named, would overwrite an existing
/// output without permission, or is written to the same output as an
/// earlier input.
pub proof fn law_refused_plan(cs: Seq<CandidateView>, options: OptionsView, overwrite: bool, n: nat)
    requires
        n <= cs.len(),
    ensures
        jobs_spec(cs, options, overwrite, n) is Err <==> exists|i: int|
            0 <= i < n && #[trigger] refused_at(cs, options, overwrite, i),
    decreases n,
{
    if n > 0 {
        let i = (n - 1) as nat;
        law_refused_plan(cs, options, overwrite, i);
        law_accepted_plan(cs, options, overwrite, i);
        match jobs_spec(cs, options, overwrite, i) {
            Err(_) => {
                let k = choose|k: int| 0 <= k < i && #[trigger] refused_at(cs, options, overwrite, k);
                assert(0 <= k < n && refused_at(cs, options, overwrite, k));
            },
            Ok(js) => {
                assert(forall|k: int| 0 <= k < i ==> !#[trigger] refused_at(cs, options, overwrite, k));
                let c = cs[i as int];
                let earlier = exists|j: int|
                    0 <= j < i && !is_skipped(cs[j], options) && passes_checks(cs[j], options, overwrite)
                        && #[trigger] same_output(cs, options, j, i as int);
                if candidate_output(c, options) is Ok && c.stem is Some {
                    let o = candidate_output(c, options)->Ok_0;
                    if clashes(cs, js, c, o) {
                        let k = choose|k: int| 0 <= k < js.len() && #[trigger] cs[js[k].0 as int].directory
                            == c.directory && js[k].1 == o;
                        let j = js[k].0 as int;
                        assert(job_sound(cs, options, overwrite, js[k]));
                        assert(same_output(cs, options, j, i as int));
                        assert(earlier);
                    }
                    if earlier {
                        let j = choose|j: int|
                            0 <= j < i && !is_skipped(cs[j], options) && passes_checks(
                                cs[j],
                                options,
                                overwrite,
                            ) && #[trigger] same_output(cs, options, j, i as int);
                        let k = choose|k: int| 0 <= k < js.len() && #[trigger] js[k].0 == j as nat;
                        assert(job_sound(cs, options, overwrite, js[k]));
                        assert(cs[js[k].0 as int].directory == c.directory && js[k].1 == o);
                        assert(clashes(cs, js, c, o));
                    }
                }
                if jobs_spec(cs, options, overwrite, n) is Err {
                    assert(refused_at(cs, options, overwrite, i as int));
                } else {
                    assert forall|k: int| 0 <= k < n implies !#[trigger] refused_at(
                        cs,
                        options,
                        overwrite,
                        k,
                    ) by {
                        if k == i {
                            assert(!refused_at(cs, options, overwrite, i as int));
                        }
                    }
                }
            },
        }
    }
}

proof fn lemma_jobs_error_persists(
    cs: Seq<CandidateView>,
    options: OptionsView,
    overwrite: bool,
    k: nat,
    n: nat,
)
    requires
        k <= n,
        jobs_spec(cs, options, overwrite, k) is Err,
    ensures
        jobs_spec(cs, options, overwrite, n) == jobs_spec(cs, options, overwrite, k),
    decreases n - k,
{
    if k < n {
        lemma_jobs_error_persists(cs, options, overwrite, k, (n - 1) as nat);
    }
}

/// Whether the candidate's stem marks it as an earlier output.
fn is_skipped_exec(c: &Candidate, options: &NamingOptions) -> (skipped: bool)
    ensures
        skipped == is_skipped(c@, options@),
{
    reveal(is_skipped);
    match &c.stem {
        Some(stem) => recolored_stem(stem.as_str(), options.palette_name.as_str()),
        None => false,
    }
}

/// Whether the candidate's file has an image extension.
fn is_supported_exec(c: &Candidate) -> (image: bool)
    ensures
        image == is_supported(c@),
{
    reveal(is_supported);
    match &c.extension {
        Some(extension) => image_extension(extension.as_str()),
        None => false,
    }
}

/// The positions of the candidates that are skipped because their names
/// mark them as outputs of an earlier recolouring.
pub fn skipped_inputs(candidates: &Vec<Candidate>, options: &NamingOptions) -> (skipped: Vec<usize>)
    ensures
        skipped@.map_values(|i: usize| i as nat) == skipped_spec(
            candidates_view(candidates@),
            options@,
            candidates@.len(),
        ),
{
    let ghost cs = candidates_view(candidates@);
    let mut skipped: Vec<usize> = Vec::new();
    let mut i: usize = 0;
    while i < candidates.len()
        invariant
            0 <= i <= candidates@.len(),
            cs == candidates_view(candidates@),
            skipped@.map_values(|i: usize| i as nat) == skipped_spec(cs, options@, i as nat),
        decreases candidates.len() - i,
    {
        assert(cs[i as int] == candidates@[i as int]@);
        let ghost before = skipped@;
        if is_skipped_exec(&candidates[i], options) {
            skipped.push(i);
            assert(skipped@.map_values(|i: usize| i as nat) =~= before.map_values(
                |i: usize| i as nat,
            ).push(i as nat));
        }
        i = i + 1;
    }
    skipped
}

/// Whether an earlier job writes into the candidate's directory under the
/// name `output`.
fn clashes_exec(candidates: &Vec<Candidate>, jobs: &Vec<Job>, c: &Candidate, output: &str) -> (clash:
    bool)
    requires
        forall|k: int| 0 <= k < jobs@.len() ==> #[trigger] jobs@[k].input < candidates@.len(),
    ensures
        clash == clashes(candidates_view(candidates@), jobs_view(jobs@), c@, output@),
{
    let ghost cs = candidates_view(candidates@);
    let ghost js = jobs_view(jobs@);
    let wanted = chars_of(output);
    let mut k: usize = 0;
    while k < jobs.len()
        invariant
            0 <= k <= jobs@.len(),
            cs == candidates_view(candidates@),
            js == jobs_view(jobs@),
            wanted@ == output@,
            forall|k: int| 0 <= k < jobs@.len() ==> #[trigger] jobs@[k].input < candidates@.len(),
            forall|j: int|
                0 <= j < k ==> !(#[trigger] cs[js[j].0 as int].directory == c@.directory
                    && js[j].1 == output@),
        decreases jobs.len() - k,
    {
        let job = &jobs[k];
        let earlier = &candidates[job.input];
        assert(js[k as int] == (job.input as nat, job.output_name@));
        assert(cs[job.input as int] == earlier@);
        if earlier.directory == c.directory && same_chars(
            chars_of(job.output_name.as_str()).as_slice(),
            wanted.as_slice(),
        ) {
            assert(cs[js[k as int].0 as int].directory == c@.directory && js[k as int].1 == output@);
            return true;
        }
        k = k + 1;
    }
    false
}

/// What becomes of candidate `i` given the jobs planned before it.
fn step(
    candidates: &Vec<Candidate>,
    planned: &Vec<Job>,
    i: usize,
    options: &NamingOptions,
    lambda: Option<&str>,
    mix: Option<&str>,
    overwrite: bool,
) -> (result: Result<Option<String>, JobError>)
    requires
        i < candidates@.len(),
        forall|k: int| 0 <= k < planned@.len() ==> #[trigger] planned@[k].input < candidates@.len(),
        opt_view(lambda) == options@.lambda,
        opt_view(mix) == options@.mix,
    ensures
        match result {
            Ok(None) => candidate_step(
                candidates_view(candidates@),
                jobs_view(planned@),
                i as nat,
                options@,
                overwrite,
            ) == Ok::<Option<Seq<char>>, JobErrorView>(None),
            Ok(Some(output)) => candidate_step(
                candidates_view(candidates@),
                jobs_view(planned@),
                i as nat,
                options@,
                overwrite,
            ) == Ok::<Option<Seq<char>>, JobErrorView>(Some(output@)),
            Err(error) => candidate_step(
                candidates_view(candidates@),
                jobs_view(planned@),
                i as nat,
                options@,
                overwrite,
            ) == Err::<Option<Seq<char>>, _>(error@),
        },
{
    let c = &candidates[i];
    assert(candidates_view(candidates@)[i as int] == c@);
    reveal(candidate_output);
    if is_skipped_exec(c, options) {
        return Ok(None);
    }
    if !c.is_file {
        return Err(JobError::NotAFile(i));
    }
    if !is_supported_exec(c) {
        return Err(JobError::Unsupported(i));
    }
    let stem = match &c.stem {
        None => {
            return Err(JobError::InvalidName(i));
        },
        Some(stem) => stem,
    };
    match output_name_for_stem(
        stem.as_str(),
        options.normalize_name,
        options.format,
        options.palette_name.as_str(),
        options.neutral_only,
        lambda,
        mix,
        options.palette_name_only,
    ) {
        Err(message) => Err(JobError::Naming(message)),
        Ok(output) => if clashes_exec(candidates, planned, c, output.as_str()) {
            Err(JobError::DuplicateOutput(i))
        } else if c.output_exists && !overwrite {
            Err(JobError::OutputExists(i))
        } else {
            Ok(Some(output))
        },
    }
}

/// Plans the batch: for every candidate that is not skipped, in order,
/// checks that it is a file with an image extension and a UTF-8 stem, forms
/// its output name,
/// and refuses an output that repeats an earlier one in the same directory
/// or that exists when `overwrite` is not set; the first failing check
/// decides the error.
pub fn jobs(candidates: &Vec<Candidate>, options: &NamingOptions, overwrite: bool) -> (result: Result<
    Vec<Job>,
    JobError,
>)
    ensures
        match result {
            Ok(planned) => jobs_spec(
                candidates_view(candidates@),
                options@,
                overwrite,
                candidates@.len(),
            ) == Ok::<_, JobErrorView>(jobs_view(planned@)),
            Err(error) => jobs_spec(
                candidates_view(candidates@),
                options@,
                overwrite,
                candidates@.len(),
            ) == Err::<Seq<(nat, Seq<char>)>, _>(error@),
        },
{
    let ghost cs = candidates_view(candidates@);
    let lambda = match &options.lambda {
        Some(l) => Some(l.as_str()),
        None => None,
    };
    let mix = match &options.mix {
        Some(m) => Some(m.as_str()),
        None => None,
    };
    let mut planned: Vec<Job> = Vec::new();
    assert(jobs_view(planned@) =~= seq![]);
    let mut i: usize = 0;
    while i < candidates.len()
        invariant
            0 <= i <= candidates@.len(),
            cs == candidates_view(candidates@),
            opt_view(lambda) == options@.lambda,
            opt_view(mix) == options@.mix,
            jobs_spec(cs, options@, overwrite, i as nat) == Ok::<_, JobErrorView>(
                jobs_view(planned@),
            ),
            forall|k: int| 0 <= k < planned@.len() ==> #[trigger] planned@[k].input < i,
        decreases candidates.len() - i,
    {
        let ghost before = jobs_view(planned@);
        match step(candidates, &planned, i, options, lambda, mix, overwrite) {
            Ok(None) => {},
            Ok(Some(output)) => {
                let ghost out = output@;
                planned.push(Job { input: i, output_name: output });
                assert(jobs_view(planned@) =~= before.push((i as nat, out)));
            },
            Err(error) => {
                proof {
                    lemma_jobs_error_persists(
                        cs,
                        options@,
                        overwrite,
                        (i + 1) as nat,
                        candidates@.len(),
                    );
                }
                return Err(error);
            },
        }
        i = i + 1;
    }
    Ok(planned)
}

} // verus!
