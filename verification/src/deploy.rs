//! The run over all registries and images: what to do next, decided from
//! what the last step gave.

use vstd::prelude::*;
use vstd::string::*;
use crate::config::{
    DeploymentConfig, ImageConfig, ImageConfigView, RegistryConfig, RegistryConfigView,
    RegistryGroup, RegistryGroupView,
};
use crate::docker::{
    base64_standard, bearer, build_line, built, cleanup_line, format_stderr, formatted_stderr,
    is_success, login, login_display, login_line, login_shown, push_line, status_is_success,
    tag_line, tags_endpoint, Docker, DockerView, TagListRequest,
};
use crate::text::{equal, trim, trimmed};

verus! {

/// One unit of work of a run.
#[derive(Debug, Clone, PartialEq, Eq)]
pub enum Job {
    /// Log in to the registries called `name`; a failure skips the images up
    /// to the next login.
    Login { name: String, hostname: String, username: String, password: String },
    /// Pass over an image that is marked `ignore`: nothing is run for it.
    Ignored { name: String, tag: String },
    /// Publish an image, unconditionally where `replace` holds, otherwise
    /// only where the registry does not hold its tag yet.
    Publish { docker: Docker, replace: bool },
}

pub enum JobView {
    Login { name: Seq<char>, hostname: Seq<char>, username: Seq<char>, password: Seq<char> },
    Ignored { name: Seq<char>, tag: Seq<char> },
    Publish { docker: DockerView, replace: bool },
}

impl View for Job {
    type V = JobView;

    open spec fn view(&self) -> JobView {
        match self {
            Job::Login { name, hostname, username, password } => JobView::Login {
                name: name@,
                hostname: hostname@,
                username: username@,
                password: password@,
            },
            Job::Ignored { name, tag } => JobView::Ignored { name: name@, tag: tag@ },
            Job::Publish { docker, replace } => JobView::Publish {
                docker: docker@,
                replace: *replace,
            },
        }
    }
}

/// The job that publishes `image` to `registry`.
pub open spec fn publish_job(registry: RegistryConfigView, image: ImageConfigView) -> JobView {
    JobView::Publish {
        docker: DockerView {
            path: image.path,
            source: image.source,
            hostname: registry.hostname,
            password: registry.password,
            repository: image.repository,
            image: image.name,
            tag: image.tag,
            hash: Seq::empty(),
        },
        replace: image.replace,
    }
}

/// The job for `image` of `registry`: it is passed over where it is marked
/// `ignore`, and published otherwise.
pub open spec fn image_job(registry: RegistryConfigView, image: ImageConfigView) -> JobView {
    if image.ignore {
        JobView::Ignored { name: image.name, tag: image.tag }
    } else {
        publish_job(registry, image)
    }
}

/// The jobs for the images `images` of `registry`, one for each, in order.
pub open spec fn image_jobs(registry: RegistryConfigView, images: Seq<ImageConfigView>) -> Seq<
    JobView,
> {
    images.map_values(|image: ImageConfigView| image_job(registry, image))
}

/// The jobs for the images of the registries `entries`, in order.
pub open spec fn registry_jobs(entries: Seq<RegistryConfigView>) -> Seq<JobView>
    decreases entries.len(),
{
    if entries.len() == 0 {
        Seq::empty()
    } else {
        registry_jobs(entries.drop_last()) + image_jobs(entries.last(), entries.last().images)
    }
}

/// The jobs for one registry name: a login with the credentials of its first
/// registry, then the images of all its registries. A name without a
/// registry gives nothing.
pub open spec fn group_jobs(group: RegistryGroupView) -> Seq<JobView> {
    if group.entries.len() == 0 {
        Seq::empty()
    } else {
        seq![
            JobView::Login {
                name: group.name,
                hostname: group.entries[0].hostname,
                username: group.entries[0].username,
                password: group.entries[0].password,
            },
        ] + registry_jobs(group.entries)
    }
}

/// The jobs of a run over `groups`, in order.
pub open spec fn plan(groups: Seq<RegistryGroupView>) -> Seq<JobView>
    decreases groups.len(),
{
    if groups.len() == 0 {
        Seq::empty()
    } else {
        plan(groups.drop_last()) + group_jobs(groups.last())
    }
}

/// The views of `jobs`.
pub open spec fn job_views(jobs: Seq<Job>) -> Seq<JobView> {
    jobs.map_values(|job: Job| job@)
}

/// Adds the jobs for the images of `registry` to `jobs`.
fn push_image_jobs(jobs: &mut Vec<Job>, registry: &RegistryConfig)
    ensures
        job_views(final(jobs)@) == job_views(old(jobs)@) + image_jobs(registry@, registry@.images),
{
    let ghost images = registry@.images;
    let ghost start = job_views(jobs@);
    let mut i: usize = 0;
    assert(job_views(jobs@) =~= start + image_jobs(registry@, images.take(0)));
    while i < registry.images.len()
        invariant
            i <= registry.images.len(),
            images == registry@.images,
            job_views(jobs@) == start + image_jobs(registry@, images.take(i as int)),
        decreases registry.images.len() - i,
    {
        let image = &registry.images[i];
        let ghost before = job_views(jobs@);
        assert(images[i as int] == image@);
        let job = if image.ignore {
            Job::Ignored { name: image.name.clone(), tag: image.tag.clone() }
        } else {
            let docker = Docker::new(
                image.path.clone(),
                image.source.clone(),
                registry.hostname.clone(),
                registry.password.clone(),
                image.repository.clone(),
                image.name.clone(),
                image.tag.clone(),
            );
            Job::Publish { docker, replace: image.replace }
        };
        assert(job@ == image_job(registry@, image@));
        jobs.push(job);
        assert(job_views(jobs@) =~= before.push(job@));
        assert(job_views(jobs@) =~= start + image_jobs(registry@, images.take(i + 1)));
        i += 1;
    }
    assert(images.take(i as int) =~= images);
}

/// Adds the jobs for one registry name to `jobs`.
fn push_group_jobs(jobs: &mut Vec<Job>, group: &RegistryGroup)
    ensures
        job_views(final(jobs)@) == job_views(old(jobs)@) + group_jobs(group@),
{
    let ghost entries = group@.entries;
    let ghost start = job_views(jobs@);
    if group.entries.len() == 0 {
        assert(job_views(jobs@) =~= start + group_jobs(group@));
        return ;
    }
    let first = &group.entries[0];
    assert(entries[0] == first@);
    let job = Job::Login {
        name: group.name.clone(),
        hostname: first.hostname.clone(),
        username: first.username.clone(),
        password: first.password.clone(),
    };
    jobs.push(job);
    let ghost head = start.push(job@);
    assert(job_views(jobs@) =~= head + registry_jobs(entries.take(0)));
    let mut i: usize = 0;
    while i < group.entries.len()
        invariant
            i <= group.entries.len(),
            entries == group@.entries,
            job_views(jobs@) == head + registry_jobs(entries.take(i as int)),
        decreases group.entries.len() - i,
    {
        let registry = &group.entries[i];
        proof {
            assert(entries[i as int] == registry@);
            assert(entries.take(i + 1).drop_last() =~= entries.take(i as int));
            assert(entries.take(i + 1).last() == registry@);
        }
        push_image_jobs(jobs, registry);
        assert(job_views(jobs@) =~= head + registry_jobs(entries.take(i + 1)));
        i += 1;
    }
    assert(entries.take(i as int) =~= entries);
    assert(job_views(jobs@) =~= start + group_jobs(group@));
}

/// The jobs of a run over `config`: for each registry name a login, then
/// one job for each image.
pub fn plan_jobs(config: &DeploymentConfig) -> (r: Vec<Job>)
    ensures
        job_views(r@) == plan(config@.registries),
{
    let ghost groups = config@.registries;
    let mut jobs: Vec<Job> = Vec::new();
    let mut i: usize = 0;
    assert(job_views(jobs@) =~= plan(groups.take(0)));
    while i < config.registries.len()
        invariant
            i <= config.registries.len(),
            groups == config@.registries,
            job_views(jobs@) == plan(groups.take(i as int)),
        decreases config.registries.len() - i,
    {
        let group = &config.registries[i];
        proof {
            assert(groups[i as int] == group@);
            assert(groups.take(i + 1).drop_last() =~= groups.take(i as int));
            assert(groups.take(i + 1).last() == group@);
        }
        push_group_jobs(&mut jobs, group);
        i += 1;
    }
    assert(groups.take(i as int) =~= groups);
    jobs
}

/// Whether an image is to be built and published: always where it replaces
/// what the registry holds, otherwise only where the registry does not hold
/// its tag.
pub open spec fn publishes(replace: bool, tag: Seq<char>, tags: Seq<Seq<char>>) -> bool {
    replace || !tags.contains(tag)
}

/// Whether `tag` is among `tags`.
pub fn holds_tag(tags: &Vec<String>, tag: &str) -> (r: bool)
    ensures
        r == tags.deep_view().contains(tag@),
{
    let mut i: usize = 0;
    while i < tags.len()
        invariant
            i <= tags.len(),
            forall|k: int| 0 <= k < i ==> tags.deep_view()[k] != tag@,
        decreases tags.len() - i,
    {
        if equal(tags[i].as_str(), tag) {
            assert(tags.deep_view()[i as int] == tag@);
            return true;
        }
        i += 1;
    }
    false
}

/// Whether `image` is to be built and published, given the tags that the
/// registry holds of it.
pub fn should_publish(image: &ImageConfig, tags: &Vec<String>) -> (r: bool)
    ensures
        r == publishes(image@.replace, image@.tag, tags.deep_view()),
{
    image.replace || !holds_tag(tags, image.tag.as_str())
}

/// What a run is waiting for.
#[derive(Debug, Clone, Copy, PartialEq, Eq, Structural)]
pub enum Phase {
    /// Nothing has been done yet.
    Ready,
    /// The end of a login command.
    Login,
    /// The status of the registry's answer to a request for tags.
    Status,
    /// The tags that the body of that answer lists.
    Tags,
    /// The end of a build command.
    Build,
    /// The end of a tag command.
    Tag,
    /// The end of a push command.
    Push,
    /// The end of a cleanup command.
    Cleanup,
    /// Nothing more: the run is over.
    Done,
}

/// What the last step gave.
#[derive(Debug, Clone, PartialEq, Eq)]
pub enum Event {
    /// The run begins.
    Start,
    /// The command has ended, with or without success, and has printed
    /// `stdout`.
    Finished { success: bool, stdout: String },
    /// The registry has answered with this HTTP status.
    Status(u16),
    /// The body of the registry's answer lists these tags.
    Tags(Vec<String>),
}

pub enum EventView {
    Start,
    Finished { success: bool, stdout: Seq<char> },
    Status(u16),
    Tags(Seq<Seq<char>>),
}

impl View for Event {
    type V = EventView;

    open spec fn view(&self) -> EventView {
        match self {
            Event::Start => EventView::Start,
            Event::Finished { success, stdout } => EventView::Finished {
                success: *success,
                stdout: stdout@,
            },
            Event::Status(status) => EventView::Status(*status),
            Event::Tags(tags) => EventView::Tags(tags.deep_view()),
        }
    }
}

/// What to do next.
#[derive(Debug, Clone, PartialEq, Eq)]
pub enum Action {
    /// Run `command` in a shell, in `directory` where one is given, and
    /// answer with `Event::Finished`. `shown` is the command as it may be
    /// shown: a login without its password, any other command as it is.
    Run { directory: Option<String>, command: String, shown: String },
    /// Send the request and answer with `Event::Status`.
    QueryTags(TagListRequest),
    /// Read the tags that the body of the answer lists and answer with
    /// `Event::Tags`.
    ReadTags,
    /// Stop: the run is over, and `errors` images gave no build.
    Finish { errors: usize },
}

pub enum ActionView {
    Run { directory: Option<Seq<char>>, command: Seq<char>, shown: Seq<char> },
    QueryTags { endpoint: Seq<char>, authorization: Seq<char> },
    ReadTags,
    Finish { errors: int },
}

impl View for Action {
    type V = ActionView;

    open spec fn view(&self) -> ActionView {
        match self {
            Action::Run { directory, command, shown } => ActionView::Run {
                directory: match directory {
                    Some(directory) => Some(directory@),
                    None => None,
                },
                command: command@,
                shown: shown@,
            },
            Action::QueryTags(request) => ActionView::QueryTags {
                endpoint: request.endpoint@,
                authorization: request.authorization@,
            },
            Action::ReadTags => ActionView::ReadTags,
            Action::Finish { errors } => ActionView::Finish { errors: *errors as int },
        }
    }
}

/// What a step of a run came by, to be told to whoever watches the run.
#[derive(Debug, Clone, PartialEq, Eq)]
pub enum Note {
    /// The run has come to the registries called `name` and logs in.
    Registry { name: String, hostname: String, username: String },
    /// The run has come to the image `name` with the tag `tag`.
    Image { name: String, tag: String },
    /// That image is marked `ignore` and is passed over.
    Ignored,
    /// The registry holds the tag of that image, which does not replace it:
    /// the image is not published.
    Held,
    /// The run is a dry one: the built image is neither tagged nor pushed.
    DryRun,
}

pub enum NoteView {
    Registry { name: Seq<char>, hostname: Seq<char>, username: Seq<char> },
    Image { name: Seq<char>, tag: Seq<char> },
    Ignored,
    Held,
    DryRun,
}

impl View for Note {
    type V = NoteView;

    open spec fn view(&self) -> NoteView {
        match self {
            Note::Registry { name, hostname, username } => NoteView::Registry {
                name: name@,
                hostname: hostname@,
                username: username@,
            },
            Note::Image { name, tag } => NoteView::Image { name: name@, tag: tag@ },
            Note::Ignored => NoteView::Ignored,
            Note::Held => NoteView::Held,
            Note::DryRun => NoteView::DryRun,
        }
    }
}

/// A run: its jobs, the job it is at, what it waits for, the image it works
/// on, the number of images that gave no build so far, and what its last
/// step came by.
pub struct Deployment {
    jobs: Vec<Job>,
    dry_run: bool,
    at: usize,
    phase: Phase,
    docker: Docker,
    errors: usize,
    notes: Vec<Note>,
}

pub struct DeploymentView {
    pub jobs: Seq<JobView>,
    pub dry_run: bool,
    pub at: int,
    pub phase: Phase,
    pub docker: DockerView,
    pub errors: int,
    pub notes: Seq<NoteView>,
}

impl View for Deployment {
    type V = DeploymentView;

    closed spec fn view(&self) -> DeploymentView {
        DeploymentView {
            jobs: job_views(self.jobs@),
            dry_run: self.dry_run,
            at: self.at as int,
            phase: self.phase,
            docker: self.docker@,
            errors: self.errors as int,
            notes: self.notes@.map_values(|note: Note| note@),
        }
    }
}

/// The image that a run works on before it has reached one.
pub open spec fn no_image() -> DockerView {
    DockerView {
        path: Seq::empty(),
        source: Seq::empty(),
        hostname: Seq::empty(),
        password: Seq::empty(),
        repository: Seq::empty(),
        image: Seq::empty(),
        tag: Seq::empty(),
        hash: Seq::empty(),
    }
}

/// The run over `jobs` before its start.
pub open spec fn initial(jobs: Seq<JobView>, dry_run: bool) -> DeploymentView {
    DeploymentView {
        jobs,
        dry_run,
        at: 0,
        phase: Phase::Ready,
        docker: no_image(),
        errors: 0,
        notes: Seq::empty(),
    }
}

/// The run after its step has come by `note`.
pub open spec fn noted(run: DeploymentView, note: NoteView) -> DeploymentView {
    DeploymentView { notes: run.notes.push(note), ..run }
}

/// The position of the first login at or after `from`; the number of jobs
/// where there is none.
pub open spec fn next_login(jobs: Seq<JobView>, from: int) -> int
    decreases jobs.len() - from,
{
    if from < 0 || from >= jobs.len() {
        jobs.len() as int
    } else if jobs[from] is Login {
        from
    } else {
        next_login(jobs, from + 1)
    }
}

/// Running `command` in the directory of `docker`.
pub open spec fn run_in(docker: DockerView, command: Seq<char>) -> ActionView {
    ActionView::Run { directory: Some(docker.path), command, shown: command }
}

/// The run builds the image it works on.
pub open spec fn building(run: DeploymentView) -> (DeploymentView, ActionView) {
    (DeploymentView { phase: Phase::Build, ..run }, run_in(run.docker, build_line(run.docker)))
}

/// The run comes to the job at `at`. A login is run. An image that is
/// marked `ignore` is passed over, and the run comes to the job behind it.
/// An image that replaces what the registry holds is built; for any other
/// image the registry is asked for its tags. Behind the last job the run is
/// over.
pub open spec fn arrived(run: DeploymentView, at: int) -> (DeploymentView, ActionView)
    decreases run.jobs.len() - at,
{
    if at < 0 || at >= run.jobs.len() {
        (
            DeploymentView { at: run.jobs.len() as int, phase: Phase::Done, ..run },
            ActionView::Finish { errors: run.errors },
        )
    } else {
        match run.jobs[at] {
            JobView::Login { name, hostname, username, password } => (
                DeploymentView {
                    at,
                    phase: Phase::Login,
                    ..noted(run, NoteView::Registry { name, hostname, username })
                },
                ActionView::Run {
                    directory: None,
                    command: login_line(hostname, username, password),
                    shown: login_shown(hostname, username),
                },
            ),
            JobView::Ignored { name, tag } => arrived(
                noted(noted(run, NoteView::Image { name, tag }), NoteView::Ignored),
                at + 1,
            ),
            JobView::Publish { docker, replace } => {
                let run = noted(run, NoteView::Image { name: docker.image, tag: docker.tag });
                if replace {
                    building(DeploymentView { at, docker, ..run })
                } else {
                    (
                        DeploymentView { at, phase: Phase::Status, docker, ..run },
                        ActionView::QueryTags {
                            endpoint: tags_endpoint(docker),
                            authorization: bearer(base64_standard(docker.password)),
                        },
                    )
                }
            },
        }
    }
}

/// The run is done with the image it works on: an image without a hash
/// gave no build and counts as an error; the run comes to the next job.
pub open spec fn finished(run: DeploymentView) -> (DeploymentView, ActionView) {
    let errors = if run.docker.hash.len() == 0 {
        run.errors + 1
    } else {
        run.errors
    };
    arrived(DeploymentView { errors, ..run }, run.at + 1)
}

/// The run removes the built image where there is one.
pub open spec fn cleaning(run: DeploymentView) -> (DeploymentView, ActionView) {
    if run.docker.hash.len() > 0 {
        (
            DeploymentView { phase: Phase::Cleanup, ..run },
            run_in(run.docker, cleanup_line(run.docker)),
        )
    } else {
        finished(run)
    }
}

/// The run pushes the tagged image where there is one.
pub open spec fn pushing(run: DeploymentView) -> (DeploymentView, ActionView) {
    if run.docker.hash.len() > 0 {
        (DeploymentView { phase: Phase::Push, ..run }, run_in(run.docker, push_line(run.docker)))
    } else {
        cleaning(run)
    }
}

/// The run goes on behind a build: the built image is tagged, unless the
/// run is a dry one or there is no built image.
pub open spec fn tagging(run: DeploymentView) -> (DeploymentView, ActionView) {
    if run.dry_run {
        cleaning(noted(run, NoteView::DryRun))
    } else if run.docker.hash.len() > 0 {
        (DeploymentView { phase: Phase::Tag, ..run }, run_in(run.docker, tag_line(run.docker)))
    } else {
        cleaning(run)
    }
}

/// The run and what it does after `event`; nothing where the run does not
/// wait for such an event. The notes of the run are those of this step.
pub open spec fn stepped(before: DeploymentView, event: EventView) -> Option<
    (DeploymentView, ActionView),
> {
    let run = DeploymentView { notes: Seq::empty(), ..before };
    match (run.phase, event) {
        (Phase::Ready, EventView::Start) => Some(arrived(run, 0)),
        (Phase::Login, EventView::Finished { success, stdout }) => if success {
            Some(arrived(run, run.at + 1))
        } else {
            Some(arrived(run, next_login(run.jobs, run.at + 1)))
        },
        (Phase::Status, EventView::Status(status)) => if status_is_success(status) {
            Some((DeploymentView { phase: Phase::Tags, ..run }, ActionView::ReadTags))
        } else {
            Some(building(run))
        },
        (Phase::Tags, EventView::Tags(tags)) => if publishes(false, run.docker.tag, tags) {
            Some(building(run))
        } else {
            Some(arrived(noted(run, NoteView::Held), run.at + 1))
        },
        (Phase::Build, EventView::Finished { success, stdout }) => Some(
            tagging(DeploymentView { docker: built(run.docker, success, stdout), ..run }),
        ),
        (Phase::Tag, EventView::Finished { success, stdout }) => Some(pushing(run)),
        (Phase::Push, EventView::Finished { success, stdout }) => Some(cleaning(run)),
        (Phase::Cleanup, EventView::Finished { success, stdout }) => Some(finished(run)),
        _ => None,
    }
}

/// What is told of a command that has ended while the run was in `phase`:
/// after a success that it is done, with what a login or a build printed;
/// after a failure the diagnostic output, laid out.
pub open spec fn outcome_text(
    phase: Phase,
    success: bool,
    stdout: Seq<char>,
    stderr: Seq<char>,
) -> Seq<char> {
    if success {
        if phase == Phase::Login || phase == Phase::Build {
            "    -> done ("@ + trimmed(stdout) + ")"@
        } else {
            "    -> done"@
        }
    } else if phase == Phase::Login {
        "    -> failed. will skip all images that use this credential. error:\n"@
            + formatted_stderr(stderr)
    } else {
        "    -> error:\n"@ + formatted_stderr(stderr)
    }
}

/// What is told of a command that has ended while the run was in `phase`.
pub fn outcome(phase: Phase, success: bool, stdout: &str, stderr: &str) -> (r: String)
    ensures
        r@ == outcome_text(phase, success, stdout@, stderr@),
{
    let login = match phase {
        Phase::Login => true,
        _ => false,
    };
    let build = match phase {
        Phase::Build => true,
        _ => false,
    };
    if success {
        if login || build {
            let mut text = "    -> done (".to_owned();
            text.append(trim(stdout));
            text.append(")");
            text
        } else {
            "    -> done".to_owned()
        }
    } else {
        let mut text = if login {
            "    -> failed. will skip all images that use this credential. error:\n".to_owned()
        } else {
            "    -> error:\n".to_owned()
        };
        let laid_out = format_stderr(stderr);
        text.append(laid_out.as_str());
        text
    }
}

impl Deployment {
    /// What every run holds: it is at one of its jobs while it waits for
    /// work on one, and it has counted no more errors than jobs lie behind
    /// it.
    pub closed spec fn wf(&self) -> bool {
        &&& self.at <= self.jobs@.len()
        &&& self.errors <= self.at
        &&& self.phase != Phase::Ready && self.phase != Phase::Done ==> self.at < self.jobs@.len()
        &&& self.phase == Phase::Ready ==> self.at == 0
    }

    /// A run over `config` before its start. In a dry run images are built,
    /// but neither tagged nor pushed.
    pub fn new(config: &DeploymentConfig, dry_run: bool) -> (r: Deployment)
        ensures
            r.wf(),
            r@ == initial(plan(config@.registries), dry_run),
    {
        let run = Deployment {
            jobs: plan_jobs(config),
            dry_run,
            at: 0,
            phase: Phase::Ready,
            docker: Docker::new(
                String::new(),
                String::new(),
                String::new(),
                String::new(),
                String::new(),
                String::new(),
                String::new(),
            ),
            errors: 0,
            notes: Vec::new(),
        };
        assert(run@.notes =~= Seq::empty());
        run
    }

    /// What the run waits for.
    pub fn phase(&self) -> (r: Phase)
        ensures
            r == self@.phase,
    {
        self.phase
    }

    /// The number of images that gave no build so far.
    pub fn error_count(&self) -> (r: usize)
        ensures
            r == self@.errors,
    {
        self.errors
    }

    /// The image that the run works on.
    pub fn docker(&self) -> (r: &Docker)
        ensures
            r@ == self@.docker,
    {
        &self.docker
    }

    /// What the last step of the run came by, in order.
    pub fn notes(&self) -> (r: &Vec<Note>)
        ensures
            r@.map_values(|note: Note| note@) == self@.notes,
    {
        &self.notes
    }

    /// The position of the first login at or after `from`.
    fn next_login(&self, from: usize) -> (r: usize)
        requires
            from <= self.jobs@.len(),
        ensures
            r == next_login(self@.jobs, from as int),
            from <= r <= self.jobs@.len(),
    {
        let mut i: usize = from;
        while i < self.jobs.len()
            invariant
                from <= i <= self.jobs@.len(),
                next_login(self@.jobs, from as int) == next_login(self@.jobs, i as int),
            decreases self.jobs@.len() - i,
        {
            assert(self@.jobs[i as int] == self.jobs@[i as int]@);
            match &self.jobs[i] {
                Job::Login { .. } => {
                    return i;
                },
                _ => {},
            }
            i += 1;
        }
        i
    }

    /// The run without the notes of its last step.
    fn cleared(self) -> (r: Deployment)
        ensures
            r@ == (DeploymentView { notes: Seq::empty(), ..self@ }),
            r.wf() == self.wf(),
            r.jobs == self.jobs,
            r.at == self.at,
            r.errors == self.errors,
            r.phase == self.phase,
            r.dry_run == self.dry_run,
    {
        let run = Deployment { notes: Vec::new(), ..self };
        assert(run@.notes =~= Seq::empty());
        run
    }

    /// The run after its step has come by `note`.
    fn noted(self, note: Note) -> (r: Deployment)
        ensures
            r@ == noted(self@, note@),
            r.wf() == self.wf(),
            r.jobs == self.jobs,
            r.at == self.at,
            r.errors == self.errors,
            r.phase == self.phase,
            r.dry_run == self.dry_run,
    {
        let mut run = self;
        let ghost before = run@.notes;
        run.notes.push(note);
        assert(run@.notes =~= before.push(note@));
        run
    }

    /// Running `command` in the directory of the image that the run works on.
    fn run(&self, command: String) -> (r: Action)
        ensures
            r@ == run_in(self@.docker, command@),
    {
        Action::Run {
            directory: Some(self.docker.path().to_owned()),
            shown: command.clone(),
            command,
        }
    }

    fn building(self) -> (r: (Deployment, Action))
        requires
            self.at < self.jobs@.len(),
            self.errors <= self.at,
        ensures
            r.0.wf(),
            (r.0@, r.1@) == building(self@),
    {
        let action = self.run(self.docker.build_command());
        (Deployment { phase: Phase::Build, ..self }, action)
    }

    fn arrived(self, at: usize) -> (r: (Deployment, Action))
        requires
            self.errors <= at,
            self.errors <= self.jobs@.len(),
        ensures
            r.0.wf(),
            (r.0@, r.1@) == arrived(self@, at as int),
        decreases self.jobs@.len() - at,
    {
        if at >= self.jobs.len() {
            let errors = self.errors;
            let end = self.jobs.len();
            return (Deployment { at: end, phase: Phase::Done, ..self }, Action::Finish { errors });
        }
        assert(self@.jobs[at as int] == self.jobs@[at as int]@);
        match &self.jobs[at] {
            Job::Login { name, hostname, username, password } => {
                let action = Action::Run {
                    directory: None,
                    command: login(hostname.as_str(), username.as_str(), password.as_str()),
                    shown: login_display(hostname.as_str(), username.as_str()),
                };
                let note = Note::Registry {
                    name: name.clone(),
                    hostname: hostname.clone(),
                    username: username.clone(),
                };
                let run = self.noted(note);
                (Deployment { at, phase: Phase::Login, ..run }, action)
            },
            Job::Ignored { name, tag } => {
                let note = Note::Image { name: name.clone(), tag: tag.clone() };
                let run = self.noted(note).noted(Note::Ignored);
                run.arrived(at + 1)
            },
            Job::Publish { docker, replace } => {
                let docker = docker.duplicate();
                let replace = *replace;
                let note = Note::Image {
                    name: docker.image().to_owned(),
                    tag: docker.tag_name().to_owned(),
                };
                let run = self.noted(note);
                if replace {
                    let run = Deployment { at, docker, ..run };
                    run.building()
                } else {
                    let action = Action::QueryTags(docker.tag_list());
                    (Deployment { at, phase: Phase::Status, docker, ..run }, action)
                }
            },
        }
    }

    fn finished(self) -> (r: (Deployment, Action))
        requires
            self.wf(),
            self.at < self.jobs@.len(),
        ensures
            r.0.wf(),
            (r.0@, r.1@) == finished(self@),
    {
        assert(self.jobs@.len() == self.jobs.len());
        let errors: usize = if self.docker.has_hash() {
            self.errors
        } else {
            self.errors + 1
        };
        let at: usize = self.at + 1;
        let run = Deployment { errors, ..self };
        run.arrived(at)
    }

    fn cleaning(self) -> (r: (Deployment, Action))
        requires
            self.wf(),
            self.at < self.jobs@.len(),
        ensures
            r.0.wf(),
            (r.0@, r.1@) == cleaning(self@),
    {
        match self.docker.cleanup() {
            Some(command) => {
                let action = self.run(command);
                (Deployment { phase: Phase::Cleanup, ..self }, action)
            },
            None => self.finished(),
        }
    }

    fn pushing(self) -> (r: (Deployment, Action))
        requires
            self.wf(),
            self.at < self.jobs@.len(),
        ensures
            r.0.wf(),
            (r.0@, r.1@) == pushing(self@),
    {
        match self.docker.push() {
            Some(command) => {
                let action = self.run(command);
                (Deployment { phase: Phase::Push, ..self }, action)
            },
            None => self.cleaning(),
        }
    }

    fn tagging(self) -> (r: (Deployment, Action))
        requires
            self.wf(),
            self.at < self.jobs@.len(),
        ensures
            r.0.wf(),
            (r.0@, r.1@) == tagging(self@),
    {
        if self.dry_run {
            let run = self.noted(Note::DryRun);
            return run.cleaning();
        }
        match self.docker.tag() {
            Some(command) => {
                let action = self.run(command);
                (Deployment { phase: Phase::Tag, ..self }, action)
            },
            None => self.cleaning(),
        }
    }

    /// Whether the run waits for an event such as `event`.
    fn awaits(&self, event: &Event) -> (r: bool)
        ensures
            r == stepped(self@, event@) is Some,
    {
        match (self.phase, event) {
            (Phase::Ready, Event::Start) => true,
            (Phase::Login, Event::Finished { .. }) => true,
            (Phase::Status, Event::Status(_)) => true,
            (Phase::Tags, Event::Tags(_)) => true,
            (Phase::Build, Event::Finished { .. }) => true,
            (Phase::Tag, Event::Finished { .. }) => true,
            (Phase::Push, Event::Finished { .. }) => true,
            (Phase::Cleanup, Event::Finished { .. }) => true,
            _ => false,
        }
    }

    /// Takes in what the last step gave and says what to do next; the notes
    /// of the run are then those of this step. An event that the run does
    /// not wait for changes nothing and gives nothing to do.
    pub fn step(self, event: Event) -> (r: (Deployment, Option<Action>))
        requires
            self.wf(),
        ensures
            r.0.wf(),
            match stepped(self@, event@) {
                Some((run, action)) => r.0@ == run && (r.1 matches Some(next) && next@ == action),
                None => r.0@ == self@ && r.1 is None,
            },
    {
        if !self.awaits(&event) {
            return (self, None);
        }
        assert(self.jobs@.len() == self.jobs.len());
        let run = self.cleared();
        let (run, action) = match (run.phase, event) {
            (Phase::Ready, Event::Start) => run.arrived(0),
            (Phase::Login, Event::Finished { success, stdout }) => {
                if success {
                    let at: usize = run.at + 1;
                    run.arrived(at)
                } else {
                    let at = run.next_login(run.at + 1);
                    run.arrived(at)
                }
            },
            (Phase::Status, Event::Status(status)) => {
                if is_success(status) {
                    (Deployment { phase: Phase::Tags, ..run }, Action::ReadTags)
                } else {
                    run.building()
                }
            },
            (Phase::Tags, Event::Tags(tags)) => {
                if holds_tag(&tags, run.docker.tag_name()) {
                    let at: usize = run.at + 1;
                    let run = run.noted(Note::Held);
                    run.arrived(at)
                } else {
                    run.building()
                }
            },
            (Phase::Build, Event::Finished { success, stdout }) => {
                let mut run = run;
                run.docker.build(success, stdout.as_str());
                run.tagging()
            },
            (Phase::Tag, Event::Finished { success, stdout }) => run.pushing(),
            (Phase::Push, Event::Finished { success, stdout }) => run.cleaning(),
            (Phase::Cleanup, Event::Finished { success, stdout }) => run.finished(),
            _ => {
                return (run, None);
            },
        };
        (run, Some(action))
    }
}

/// `job` publishes the image `i` of the registry `e` of the group `g`, and
/// that image is not marked `ignore`.
pub open spec fn publishes_image(
    job: JobView,
    groups: Seq<RegistryGroupView>,
    g: int,
    e: int,
    i: int,
) -> bool {
    &&& 0 <= g < groups.len()
    &&& 0 <= e < groups[g].entries.len()
    &&& 0 <= i < groups[g].entries[e].images.len()
    &&& !groups[g].entries[e].images[i].ignore
    &&& job == publish_job(groups[g].entries[e], groups[g].entries[e].images[i])
}

/// Every job for the images of a list of registries that publishes anything
/// publishes an image of one of them that is not marked `ignore`.
pub proof fn lemma_registry_jobs_origin(entries: Seq<RegistryConfigView>, j: int) -> (at: (
    int,
    int,
))
    requires
        0 <= j < registry_jobs(entries).len(),
        registry_jobs(entries)[j] is Publish,
    ensures
        0 <= at.0 < entries.len(),
        0 <= at.1 < entries[at.0].images.len(),
        !entries[at.0].images[at.1].ignore,
        registry_jobs(entries)[j] == publish_job(entries[at.0], entries[at.0].images[at.1]),
    decreases entries.len(),
{
    let before = registry_jobs(entries.drop_last());
    if j < before.len() {
        lemma_registry_jobs_origin(entries.drop_last(), j)
    } else {
        (entries.len() - 1, j - before.len())
    }
}

/// No command is planned for an image that is marked `ignore`: every job of
/// a run that publishes anything publishes an image that is not marked so.
pub proof fn lemma_plan_leaves_ignored_images(groups: Seq<RegistryGroupView>, j: int)
    requires
        0 <= j < plan(groups).len(),
        plan(groups)[j] is Publish,
    ensures
        exists|g: int, e: int, i: int| publishes_image(plan(groups)[j], groups, g, e, i),
    decreases groups.len(),
{
    let before = plan(groups.drop_last());
    if j < before.len() {
        lemma_plan_leaves_ignored_images(groups.drop_last(), j);
        let (g, e, i) = choose|g: int, e: int, i: int|
            publishes_image(before[j], groups.drop_last(), g, e, i);
        assert(groups.drop_last()[g] == groups[g]);
        assert(publishes_image(plan(groups)[j], groups, g, e, i));
    } else {
        let group = groups.last();
        let k = j - before.len();
        assert(plan(groups)[j] == group_jobs(group)[k]);
        assert(k > 0);
        let at = lemma_registry_jobs_origin(group.entries, k - 1);
        assert(publishes_image(plan(groups)[j], groups, groups.len() - 1, at.0, at.1));
    }
}

/// The job of an image that is marked `ignore` is one that is passed over.
pub proof fn lemma_ignored_images_are_passed_over(
    registry: RegistryConfigView,
    images: Seq<ImageConfigView>,
    i: int,
)
    requires
        0 <= i < images.len(),
        images[i].ignore,
    ensures
        image_jobs(registry, images)[i] is Ignored,
{
}

/// A run never stops at an image that is marked `ignore`: coming to a job,
/// it passes over such images until it is over or at a login or an image to
/// publish. Nothing is run for the images it passes over.
pub proof fn lemma_run_passes_ignored_images(run: DeploymentView, at: int)
    requires
        0 <= at <= run.jobs.len(),
    ensures
        at <= arrived(run, at).0.at <= run.jobs.len(),
        arrived(run, at).0.phase == Phase::Done || (arrived(run, at).0.at < run.jobs.len()
            && !(run.jobs[arrived(run, at).0.at] is Ignored)),
        forall|k: int| at <= k < arrived(run, at).0.at ==> #[trigger] run.jobs[k] is Ignored,
    decreases run.jobs.len() - at,
{
    if at < run.jobs.len() {
        match run.jobs[at] {
            JobView::Ignored { name, tag } => {
                let next = noted(noted(run, NoteView::Image { name, tag }), NoteView::Ignored);
                lemma_run_passes_ignored_images(next, at + 1);
            },
            _ => {},
        }
    }
}

/// Coming to a job changes neither the jobs nor the number of errors, and
/// leaves the run over, logging in, asking for tags or building.
pub proof fn lemma_arrival_keeps_count(run: DeploymentView, at: int)
    ensures
        arrived(run, at).0.jobs == run.jobs,
        arrived(run, at).0.errors == run.errors,
        arrived(run, at).0.phase == Phase::Done || arrived(run, at).0.phase == Phase::Login
            || arrived(run, at).0.phase == Phase::Status || arrived(run, at).0.phase
            == Phase::Build,
    decreases run.jobs.len() - at,
{
    if 0 <= at < run.jobs.len() {
        match run.jobs[at] {
            JobView::Ignored { name, tag } => {
                let next = noted(noted(run, NoteView::Image { name, tag }), NoteView::Ignored);
                lemma_arrival_keeps_count(next, at + 1);
            },
            _ => {},
        }
    }
}

/// A run that comes to an image which does not replace what the registry
/// holds asks the registry for its tags before anything is built.
pub proof fn lemma_kept_image_asks_for_tags(run: DeploymentView, at: int)
    requires
        0 <= at < run.jobs.len(),
        run.jobs[at] matches JobView::Publish { docker, replace } && !replace,
    ensures
        arrived(run, at).0.phase == Phase::Status,
        arrived(run, at).1 is QueryTags,
{
}

/// An image whose tag the registry holds is not built: the run goes on to
/// the jobs behind it and counts no error.
pub proof fn lemma_held_tag_is_skipped(run: DeploymentView, tags: Seq<Seq<char>>)
    requires
        run.phase == Phase::Tags,
        0 <= run.at < run.jobs.len(),
        tags.contains(run.docker.tag),
    ensures
        !publishes(false, run.docker.tag, tags),
        stepped(run, EventView::Tags(tags)) matches Some(next) && next.0.at > run.at
            && next.0.errors == run.errors && next.0.notes.len() > 0 && next.0.notes[0]
            == NoteView::Held,
        stepped(run, EventView::Tags(tags)) != Some(
            building(DeploymentView { notes: Seq::empty(), ..run }),
        ),
{
    let cleared = DeploymentView { notes: Seq::empty(), ..run };
    let held = noted(cleared, NoteView::Held);
    lemma_run_passes_ignored_images(held, run.at + 1);
    lemma_arrival_keeps_count(held, run.at + 1);
    lemma_notes_are_kept(held, run.at + 1, 0);
}

/// What a step has come by before it comes to a job stays at the head of
/// its notes.
pub proof fn lemma_notes_are_kept(run: DeploymentView, at: int, k: int)
    requires
        0 <= at,
        0 <= k < run.notes.len(),
    ensures
        arrived(run, at).0.notes.len() >= run.notes.len(),
        arrived(run, at).0.notes[k] == run.notes[k],
    decreases run.jobs.len() - at,
{
    if at < run.jobs.len() {
        match run.jobs[at] {
            JobView::Ignored { name, tag } => {
                let next = noted(noted(run, NoteView::Image { name, tag }), NoteView::Ignored);
                lemma_notes_are_kept(next, at + 1, k);
            },
            _ => {},
        }
    }
}

/// An image whose tag the registry does not hold, or whose list of tags the
/// registry does not give, is built.
pub proof fn lemma_missing_tag_is_built(run: DeploymentView, tags: Seq<Seq<char>>, status: u16)
    ensures
        run.phase == Phase::Tags && !tags.contains(run.docker.tag) ==> stepped(
            run,
            EventView::Tags(tags),
        ) == Some(building(DeploymentView { notes: Seq::empty(), ..run })),
        run.phase == Phase::Status && !status_is_success(status) ==> stepped(
            run,
            EventView::Status(status),
        ) == Some(building(DeploymentView { notes: Seq::empty(), ..run })),
{
}

/// The decision on an image depends on the tags that the registry holds,
/// not on their order or their number: two runs in the same state that are
/// given lists of the same tags go on alike.
pub proof fn lemma_same_tags_same_decision(
    run: DeploymentView,
    first: Seq<Seq<char>>,
    second: Seq<Seq<char>>,
)
    requires
        forall|tag: Seq<char>| first.contains(tag) <==> second.contains(tag),
    ensures
        forall|replace: bool, tag: Seq<char>|
            publishes(replace, tag, first) == publishes(replace, tag, second),
        stepped(run, EventView::Tags(first)) == stepped(run, EventView::Tags(second)),
{
}

/// In a dry run nothing is tagged and nothing is pushed: behind a build
/// the built image is removed, or the run goes on where nothing was built.
pub proof fn lemma_dry_run_neither_tags_nor_pushes(
    run: DeploymentView,
    success: bool,
    stdout: Seq<char>,
)
    requires
        run.phase == Phase::Build,
        run.dry_run,
    ensures
        stepped(run, EventView::Finished { success, stdout }) matches Some(next)
            && next.0.phase != Phase::Tag && next.0.phase != Phase::Push,
{
    let after = noted(
        DeploymentView {
            docker: built(run.docker, success, stdout),
            notes: Seq::empty(),
            ..run
        },
        NoteView::DryRun,
    );
    if after.docker.hash.len() == 0 {
        let counted = DeploymentView { errors: after.errors + 1, ..after };
        lemma_arrival_keeps_count(counted, after.at + 1);
    }
}

/// The number of errors never falls, and it rises by one exactly where the
/// run leaves an image that gave no build.
pub proof fn lemma_errors_count_failed_builds(run: DeploymentView, event: EventView)
    ensures
        stepped(run, event) matches Some(next) ==> run.errors <= next.0.errors <= run.errors + 1,
{
    let cleared = DeploymentView { notes: Seq::empty(), ..run };
    match (run.phase, event) {
        (Phase::Ready, EventView::Start) => {
            lemma_arrival_keeps_count(cleared, 0);
        },
        (Phase::Login, EventView::Finished { success, stdout }) => {
            lemma_arrival_keeps_count(cleared, run.at + 1);
            lemma_arrival_keeps_count(cleared, next_login(run.jobs, run.at + 1));
        },
        (Phase::Tags, EventView::Tags(tags)) => {
            lemma_arrival_keeps_count(noted(cleared, NoteView::Held), run.at + 1);
        },
        (Phase::Build, EventView::Finished { success, stdout }) => {
            let after = DeploymentView { docker: built(run.docker, success, stdout), ..cleared };
            lemma_finished_errors(after);
            lemma_finished_errors(noted(after, NoteView::DryRun));
        },
        (Phase::Tag, EventView::Finished { success, stdout }) => {
            lemma_finished_errors(cleared);
        },
        (Phase::Push, EventView::Finished { success, stdout }) => {
            lemma_finished_errors(cleared);
        },
        (Phase::Cleanup, EventView::Finished { success, stdout }) => {
            lemma_finished_errors(cleared);
        },
        _ => {},
    }
}

/// Leaving an image adds one error where it gave no build, and none
/// otherwise.
pub proof fn lemma_finished_errors(run: DeploymentView)
    ensures
        finished(run).0.errors == run.errors + if run.docker.hash.len() == 0 {
            1int
        } else {
            0int
        },
{
    let errors = if run.docker.hash.len() == 0 {
        run.errors + 1
    } else {
        run.errors
    };
    lemma_arrival_keeps_count(DeploymentView { errors, ..run }, run.at + 1);
}

} // verus!
