//! One image to build and publish: the commands for the container engine,
//! the request for the tags that the registry holds, and what is kept of the
//! engine's answers.

use vstd::prelude::*;
use vstd::string::*;
use crate::text::{chars_of, lemma_split_step, split, trim, trim_end, trimmed, trimmed_end};

verus! {

/// The base64 encoding, with the standard alphabet and padding, of the UTF-8
/// bytes of `text`.
pub uninterp spec fn base64_standard(text: Seq<char>) -> Seq<char>;

/// Calls `base64::Engine::encode` on the engine
/// `base64::prelude::BASE64_STANDARD` with the bytes of `text`. The encoding
/// is a function of the bytes alone. The call fails only where the size of
/// the encoding does not fit in memory, which no text held in memory reaches.
#[verifier::external_body]
fn encode_base64(text: &str) -> (r: String)
    ensures
        r@ == base64_standard(text@),
{
    base64::Engine::encode(&base64::prelude::BASE64_STANDARD, text)
}

/// The `Authorization` header for a bearer token.
pub open spec fn bearer(token: Seq<char>) -> Seq<char> {
    "Bearer "@ + token
}

/// The `Authorization` header that carries `token`.
pub fn bearer_header(token: &str) -> (r: String)
    ensures
        r@ == bearer(token@),
{
    let mut header = "Bearer ".to_owned();
    header.append(token);
    header
}

/// The `Authorization` header for the credential `credential`: a bearer
/// token that is the credential in base64.
pub fn authorization(credential: &str) -> (r: String)
    ensures
        r@ == bearer(base64_standard(credential@)),
{
    let token = encode_base64(credential);
    bearer_header(token.as_str())
}

/// Whether an HTTP status code tells success: 200 to 299.
pub open spec fn status_is_success(status: u16) -> bool {
    200 <= status < 300
}

/// Whether an HTTP status code tells success.
pub fn is_success(status: u16) -> (r: bool)
    ensures
        r == status_is_success(status),
{
    200 <= status && status < 300
}

/// The tags that a registry's answer gives: those of its body where the
/// status tells success, none otherwise.
pub fn tags_of_response(status: u16, listed: Vec<String>) -> (r: Vec<String>)
    ensures
        status_is_success(status) ==> r == listed,
        !status_is_success(status) ==> r@.len() == 0,
{
    if is_success(status) {
        listed
    } else {
        Vec::new()
    }
}

/// A request for the tags that a registry holds of an image: a `GET` of
/// `endpoint` with the header `Authorization: authorization`.
#[derive(Debug, Clone, PartialEq, Eq)]
pub struct TagListRequest {
    pub endpoint: String,
    pub authorization: String,
}

/// An image to build and publish. `hash` is the identifier of the built
/// image; it is empty until a build has succeeded.
#[derive(Debug, Clone, PartialEq, Eq)]
pub struct Docker {
    path: String,
    source: String,
    hostname: String,
    password: String,
    repository: String,
    image: String,
    tag: String,
    hash: String,
}

pub struct DockerView {
    pub path: Seq<char>,
    pub source: Seq<char>,
    pub hostname: Seq<char>,
    pub password: Seq<char>,
    pub repository: Seq<char>,
    pub image: Seq<char>,
    pub tag: Seq<char>,
    pub hash: Seq<char>,
}

impl View for Docker {
    type V = DockerView;

    closed spec fn view(&self) -> DockerView {
        DockerView {
            path: self.path@,
            source: self.source@,
            hostname: self.hostname@,
            password: self.password@,
            repository: self.repository@,
            image: self.image@,
            tag: self.tag@,
            hash: self.hash@,
        }
    }
}

/// The name under which the image is built: `hostname/repository/image`.
pub open spec fn target(docker: DockerView) -> Seq<char> {
    docker.hostname + "/"@ + docker.repository + "/"@ + docker.image
}

/// The name under which the image is published: the target and the tag.
pub open spec fn tagged_target(docker: DockerView) -> Seq<char> {
    target(docker) + ":"@ + docker.tag
}

/// The command that builds the image.
pub open spec fn build_line(docker: DockerView) -> Seq<char> {
    "docker build -q -t "@ + target(docker) + " -f "@ + docker.source + " ."@
}

/// The command that tags the built image.
pub open spec fn tag_line(docker: DockerView) -> Seq<char> {
    "docker tag "@ + docker.hash + " "@ + tagged_target(docker)
}

/// The command that pushes the tagged image.
pub open spec fn push_line(docker: DockerView) -> Seq<char> {
    "docker push "@ + tagged_target(docker)
}

/// The command that removes the built image.
pub open spec fn cleanup_line(docker: DockerView) -> Seq<char> {
    "docker rmi "@ + docker.hash + " -f"@
}

/// The address at which the registry lists the tags of the image.
pub open spec fn tags_endpoint(docker: DockerView) -> Seq<char> {
    "https://"@ + docker.hostname + "/v2/"@ + docker.repository + "/"@ + docker.image
        + "/tags/list"@
}

/// The image after a build that ended with `success` and printed `stdout`:
/// a successful build leaves what it printed, trimmed, as the hash.
pub open spec fn built(docker: DockerView, success: bool, stdout: Seq<char>) -> DockerView {
    if success {
        DockerView { hash: trimmed(stdout), ..docker }
    } else {
        docker
    }
}

/// The command that tells whether the container engine is there.
pub open spec fn check_line() -> Seq<char> {
    "which docker"@
}

/// The command that logs in to a registry.
pub open spec fn login_line(hostname: Seq<char>, username: Seq<char>, password: Seq<char>) -> Seq<
    char,
> {
    "echo "@ + password + " | docker login "@ + hostname + " -u "@ + username
        + " --password-stdin"@
}

/// The login command as it is shown: with the password left out.
pub open spec fn login_shown(hostname: Seq<char>, username: Seq<char>) -> Seq<char> {
    "echo <REDACTED> | docker login "@ + hostname + " -u "@ + username + " --password-stdin"@
}

/// One line of diagnostic output as it is shown: trimmed, behind eight
/// spaces and with a line end; nothing for a blank line.
pub open spec fn indented_line(line: Seq<char>) -> Seq<char> {
    if trimmed(line).len() > 0 {
        "        "@ + trimmed(line) + "\n"@
    } else {
        Seq::empty()
    }
}

/// The lines `lines` as they are shown, one after the other.
pub open spec fn indented(lines: Seq<Seq<char>>) -> Seq<char>
    decreases lines.len(),
{
    if lines.len() == 0 {
        Seq::empty()
    } else {
        indented(lines.drop_last()) + indented_line(lines.last())
    }
}

/// Diagnostic output as it is shown: its lines that are not blank, each
/// trimmed and indented, without whitespace after the last.
pub open spec fn formatted_stderr(stderr: Seq<char>) -> Seq<char> {
    trimmed_end(indented(split(stderr, '\n')))
}

impl Docker {
    /// An image that has not been built yet.
    pub fn new(
        path: String,
        source: String,
        hostname: String,
        password: String,
        repository: String,
        image: String,
        tag: String,
    ) -> (r: Self)
        ensures
            r@ == (DockerView {
                path: path@,
                source: source@,
                hostname: hostname@,
                password: password@,
                repository: repository@,
                image: image@,
                tag: tag@,
                hash: Seq::empty(),
            }),
    {
        Docker { path, source, hostname, password, repository, image, tag, hash: String::new() }
    }

    /// Whether a build has succeeded and left its hash.
    pub fn has_hash(&self) -> (r: bool)
        ensures
            r == (self@.hash.len() > 0),
    {
        !self.hash.as_str().is_empty()
    }

    /// The directory in which the commands for this image run.
    pub fn path(&self) -> (r: &str)
        ensures
            r@ == self@.path,
    {
        self.path.as_str()
    }

    /// The name of the image.
    pub fn image(&self) -> (r: &str)
        ensures
            r@ == self@.image,
    {
        self.image.as_str()
    }

    /// The tag under which the image is published.
    pub fn tag_name(&self) -> (r: &str)
        ensures
            r@ == self@.tag,
    {
        self.tag.as_str()
    }

    /// The hash of the built image; empty before a successful build.
    pub fn hash(&self) -> (r: &str)
        ensures
            r@ == self@.hash,
    {
        self.hash.as_str()
    }

    /// A copy of this image.
    pub fn duplicate(&self) -> (r: Docker)
        ensures
            r@ == self@,
    {
        Docker {
            path: self.path.clone(),
            source: self.source.clone(),
            hostname: self.hostname.clone(),
            password: self.password.clone(),
            repository: self.repository.clone(),
            image: self.image.clone(),
            tag: self.tag.clone(),
            hash: self.hash.clone(),
        }
    }

    fn target(&self) -> (r: String)
        ensures
            r@ == target(self@),
    {
        let mut out = self.hostname.clone();
        out.append("/");
        out.append(self.repository.as_str());
        out.append("/");
        out.append(self.image.as_str());
        out
    }

    /// The request for the tags that the registry holds of this image.
    pub fn tag_list(&self) -> (r: TagListRequest)
        ensures
            r.endpoint@ == tags_endpoint(self@),
            r.authorization@ == bearer(base64_standard(self@.password)),
    {
        let mut endpoint = "https://".to_owned();
        endpoint.append(self.hostname.as_str());
        endpoint.append("/v2/");
        endpoint.append(self.repository.as_str());
        endpoint.append("/");
        endpoint.append(self.image.as_str());
        endpoint.append("/tags/list");
        TagListRequest { endpoint, authorization: authorization(self.password.as_str()) }
    }

    /// The command that builds this image; it runs in `path`.
    pub fn build_command(&self) -> (r: String)
        ensures
            r@ == build_line(self@),
    {
        let mut command = "docker build -q -t ".to_owned();
        let target = self.target();
        command.append(target.as_str());
        command.append(" -f ");
        command.append(self.source.as_str());
        command.append(" .");
        command
    }

    /// Takes in how the build command ended: after a success, what it
    /// printed, trimmed, is the hash; after a failure nothing changes.
    pub fn build(&mut self, success: bool, stdout: &str)
        ensures
            final(self)@ == built(old(self)@, success, stdout@),
    {
        if success {
            self.hash = trim(stdout).to_owned();
        }
    }

    /// The command that tags the built image; nothing where no build has
    /// succeeded.
    pub fn tag(&self) -> (r: Option<String>)
        ensures
            match r {
                Some(command) => self@.hash.len() > 0 && command@ == tag_line(self@),
                None => self@.hash.len() == 0,
            },
    {
        if self.hash.as_str().is_empty() {
            return None;
        }
        let mut command = "docker tag ".to_owned();
        command.append(self.hash.as_str());
        command.append(" ");
        let target = self.target();
        command.append(target.as_str());
        command.append(":");
        command.append(self.tag.as_str());
        assert(command@ =~= tag_line(self@));
        Some(command)
    }

    /// The command that pushes the tagged image; nothing where no build has
    /// succeeded.
    pub fn push(&self) -> (r: Option<String>)
        ensures
            match r {
                Some(command) => self@.hash.len() > 0 && command@ == push_line(self@),
                None => self@.hash.len() == 0,
            },
    {
        if self.hash.as_str().is_empty() {
            return None;
        }
        let mut command = "docker push ".to_owned();
        let target = self.target();
        command.append(target.as_str());
        command.append(":");
        command.append(self.tag.as_str());
        assert(command@ =~= push_line(self@));
        Some(command)
    }

    /// The command that removes the built image, used or not; nothing where
    /// no build has succeeded.
    pub fn cleanup(&self) -> (r: Option<String>)
        ensures
            match r {
                Some(command) => self@.hash.len() > 0 && command@ == cleanup_line(self@),
                None => self@.hash.len() == 0,
            },
    {
        if self.hash.as_str().is_empty() {
            return None;
        }
        let mut command = "docker rmi ".to_owned();
        command.append(self.hash.as_str());
        command.append(" -f");
        Some(command)
    }
}

/// The command that tells whether the container engine is there: it
/// succeeds where it is.
pub fn check() -> (r: String)
    ensures
        r@ == check_line(),
{
    "which docker".to_owned()
}

/// The command that logs in to the registry at `hostname`.
pub fn login(hostname: &str, username: &str, password: &str) -> (r: String)
    ensures
        r@ == login_line(hostname@, username@, password@),
{
    let mut command = "echo ".to_owned();
    command.append(password);
    command.append(" | docker login ");
    command.append(hostname);
    command.append(" -u ");
    command.append(username);
    command.append(" --password-stdin");
    command
}

/// The login command as it may be shown: the password is left out.
pub fn login_display(hostname: &str, username: &str) -> (r: String)
    ensures
        r@ == login_shown(hostname@, username@),
{
    let mut command = "echo <REDACTED> | docker login ".to_owned();
    command.append(hostname);
    command.append(" -u ");
    command.append(username);
    command.append(" --password-stdin");
    command
}

/// Adds one line of diagnostic output to `output` as it is shown.
fn push_indented(output: &mut String, line: &str)
    ensures
        final(output)@ == old(output)@ + indented_line(line@),
{
    let kept = trim(line);
    if !kept.is_empty() {
        output.append("        ");
        output.append(kept);
        output.append("\n");
        assert(output@ =~= old(output)@ + indented_line(line@));
    } else {
        assert(output@ =~= old(output)@ + indented_line(line@));
    }
}

/// Lays out the diagnostic output of a command: each line that is not blank
/// is trimmed and put behind eight spaces; the lines are separated by line
/// ends.
pub fn format_stderr(stderr: &str) -> (r: String)
    ensures
        r@ == formatted_stderr(stderr@),
{
    let chars = chars_of(stderr);
    let mut output = String::new();
    let ghost mut done: Seq<Seq<char>> = Seq::empty();
    let mut start: usize = 0;
    let mut i: usize = 0;
    assert(stderr@.take(0) =~= Seq::<char>::empty());
    assert(split(stderr@.take(0), '\n') =~= done.push(stderr@.subrange(0, 0)));
    while i < chars.len()
        invariant
            start <= i <= chars.len(),
            chars@ == stderr@,
            split(stderr@.take(i as int), '\n') == done.push(
                stderr@.subrange(start as int, i as int),
            ),
            output@ == indented(done),
        decreases chars.len() - i,
    {
        proof {
            lemma_split_step(stderr@, '\n', start as int, i as int, done);
        }
        if chars[i] == '\n' {
            let line = stderr.substring_char(start, i);
            push_indented(&mut output, line);
            proof {
                let next = done.push(line@);
                assert(next.drop_last() =~= done);
                done = next;
            }
            start = i + 1;
        }
        i += 1;
    }
    let line = stderr.substring_char(start, i);
    push_indented(&mut output, line);
    proof {
        assert(stderr@.take(i as int) =~= stderr@);
        let lines = done.push(line@);
        assert(lines.drop_last() =~= done);
    }
    trim_end(output.as_str()).to_owned()
}

} // verus!
