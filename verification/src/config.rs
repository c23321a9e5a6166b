//! Resolution of configuration documents into the registries and images to
//! publish.

use vstd::prelude::*;
use vstd::string::*;
use crate::document::{
    document, opt_view, ConfigError, Document, DocumentView, ImageEntry, ImageEntryView,
    RegistryEntry, RegistryEntryView,
};
use crate::environment::{lookup, Environment, Lookup, LookupView, VariableView};
use crate::order::{lemma_sorted, ordered, sort, sorted};
use crate::path::{parent, path_parent};
use crate::text::{contains_char, ends_with, equal, trim, trimmed};

verus! {

/// One image to publish. In an image that is marked `ignore` the fields
/// `path`, `source` and `repository` are empty and `replace` is `false`.
#[derive(Debug, Clone, PartialEq, Eq)]
pub struct ImageConfig {
    pub path: String,
    pub source: String,
    pub repository: String,
    pub name: String,
    pub tag: String,
    pub replace: bool,
    pub ignore: bool,
}

pub struct ImageConfigView {
    pub path: Seq<char>,
    pub source: Seq<char>,
    pub repository: Seq<char>,
    pub name: Seq<char>,
    pub tag: Seq<char>,
    pub replace: bool,
    pub ignore: bool,
}

impl View for ImageConfig {
    type V = ImageConfigView;

    open spec fn view(&self) -> ImageConfigView {
        ImageConfigView {
            path: self.path@,
            source: self.source@,
            repository: self.repository@,
            name: self.name@,
            tag: self.tag@,
            replace: self.replace,
            ignore: self.ignore,
        }
    }
}

/// A registry with its resolved credentials and its images.
#[derive(Debug, Clone, PartialEq, Eq)]
pub struct RegistryConfig {
    pub hostname: String,
    pub username: String,
    pub password: String,
    pub images: Vec<ImageConfig>,
}

pub struct RegistryConfigView {
    pub hostname: Seq<char>,
    pub username: Seq<char>,
    pub password: Seq<char>,
    pub images: Seq<ImageConfigView>,
}

impl View for RegistryConfig {
    type V = RegistryConfigView;

    open spec fn view(&self) -> RegistryConfigView {
        RegistryConfigView {
            hostname: self.hostname@,
            username: self.username@,
            password: self.password@,
            images: self.images@.map_values(|image: ImageConfig| image@),
        }
    }
}

/// The message for a credential field that a registry lacks.
pub open spec fn missing_message(key: Seq<char>) -> Seq<char> {
    key + " field doesn't exist."@
}

/// The message for a credential field that names no variable.
pub open spec fn empty_message(key: Seq<char>) -> Seq<char> {
    key + " field is empty."@
}

/// The message for a variable that the environment does not resolve.
pub open spec fn unresolved_message(name: Seq<char>, reason: Seq<char>) -> Seq<char> {
    "encountered a problem when trying to resolve "@ + name + ". ("@ + reason + ")"@
}

/// The message for a required field that an image lacks.
pub open spec fn missing_field_message(section: Seq<char>, field: Seq<char>) -> Seq<char> {
    "in \""@ + section + "\" section: missing required field \""@ + field + "\"."@
}

/// The value of a credential field and the errors that resolving it gives:
/// the field names an environment variable, whose value it stands for.
pub open spec fn resolved_variable(
    field: Option<Seq<char>>,
    key: Seq<char>,
    variables: Seq<VariableView>,
) -> (Seq<char>, Seq<Seq<char>>) {
    match field {
        None => (Seq::empty(), seq![missing_message(key)]),
        Some(raw) => {
            let name = trimmed(raw);
            if name.len() == 0 {
                (Seq::empty(), seq![empty_message(key)])
            } else {
                match lookup(variables, name) {
                    LookupView::Found(value) => (value, Seq::empty()),
                    LookupView::NotPresent => (
                        Seq::empty(),
                        seq![unresolved_message(name, "environment variable not found"@)],
                    ),
                    LookupView::NotUnicode(shown) => (
                        Seq::empty(),
                        seq![
                            unresolved_message(
                                name,
                                "environment variable was not valid unicode: "@ + shown,
                            ),
                        ],
                    ),
                }
            }
        },
    }
}

/// The value of a text field of an image and the errors that reading it
/// gives.
pub open spec fn resolved_field(
    section: Seq<char>,
    value: Option<Seq<char>>,
    field: Seq<char>,
    required: bool,
    default: Seq<char>,
) -> (Seq<char>, Seq<Seq<char>>) {
    match value {
        Some(text) => (text, Seq::empty()),
        None => (
            default,
            if required {
                seq![missing_field_message(section, field)]
            } else {
                Seq::empty()
            },
        ),
    }
}

/// Whether an image is marked to be left alone.
pub open spec fn is_ignored(entry: ImageEntryView) -> bool {
    entry.ignore == Some(true)
}

/// The image that `entry` resolves to, for a configuration file in
/// `directory`.
pub open spec fn resolved_image(directory: Seq<char>, entry: ImageEntryView) -> ImageConfigView {
    let name = resolved_field(entry.section, entry.name, "name"@, true, ""@).0;
    let tag = resolved_field(entry.section, entry.tag, "tag"@, false, "latest"@).0;
    if is_ignored(entry) {
        ImageConfigView {
            path: Seq::empty(),
            source: Seq::empty(),
            repository: Seq::empty(),
            name,
            tag,
            replace: false,
            ignore: true,
        }
    } else {
        ImageConfigView {
            path: directory,
            source: resolved_field(entry.section, entry.source, "source"@, true, ""@).0,
            repository: resolved_field(
                entry.section,
                entry.repository,
                "repository"@,
                true,
                ""@,
            ).0,
            name,
            tag,
            replace: entry.replace == Some(true),
            ignore: false,
        }
    }
}

/// The errors that resolving `entry` gives.
pub open spec fn image_errors(entry: ImageEntryView) -> Seq<Seq<char>> {
    let name = resolved_field(entry.section, entry.name, "name"@, true, ""@).1;
    if is_ignored(entry) {
        name
    } else {
        name + resolved_field(entry.section, entry.source, "source"@, true, ""@).1
            + resolved_field(entry.section, entry.repository, "repository"@, true, ""@).1
    }
}

/// The images that `entries` resolve to, in order.
pub open spec fn resolved_images(directory: Seq<char>, entries: Seq<ImageEntryView>) -> Seq<
    ImageConfigView,
> {
    entries.map_values(|entry: ImageEntryView| resolved_image(directory, entry))
}

/// The errors that resolving `entries` gives, in order.
pub open spec fn images_errors(entries: Seq<ImageEntryView>) -> Seq<Seq<char>>
    decreases entries.len(),
{
    if entries.len() == 0 {
        Seq::empty()
    } else {
        images_errors(entries.drop_last()) + image_errors(entries.last())
    }
}

/// Whether every image of `entries` is marked to be left alone.
pub open spec fn all_ignored(entries: Seq<ImageEntryView>) -> bool {
    forall|i: int| 0 <= i < entries.len() ==> is_ignored(#[trigger] entries[i])
}

/// The images of a configuration file whose directory is `directory`, if it
/// has one. Without a directory only images that are left alone resolve.
pub open spec fn collected_images(
    directory: Option<Seq<char>>,
    entries: Seq<ImageEntryView>,
) -> Result<Seq<ImageConfigView>, ConfigError> {
    match directory {
        Some(directory) => Ok(resolved_images(directory, entries)),
        None => if all_ignored(entries) {
            Ok(resolved_images(Seq::empty(), entries))
        } else {
            Err(ConfigError::NoDirectory)
        },
    }
}

/// A list of messages after `message` has been put at its end.
proof fn lemma_push_message(before: Vec<String>, after: Vec<String>, message: String)
    requires
        after@ == before@.push(message),
    ensures
        after.deep_view() == before.deep_view() + seq![message@],
{
    assert(after.deep_view() =~= before.deep_view() + seq![message@]);
}

/// Puts together `a`, `b` and `c`.
fn join3(a: &str, b: &str, c: &str) -> (r: String)
    ensures
        r@ == a@ + b@ + c@,
{
    let mut out = a.to_owned();
    out.append(b);
    out.append(c);
    out
}

/// Resolves one credential field of a registry: `field` names the
/// environment variable that holds the value. Where the field is absent or
/// empty, or the variable does not resolve, the value is empty and a message
/// is added to `errors`.
pub fn resolve_environment_variable(
    field: &Option<String>,
    key: &str,
    environment: &Environment,
    errors: &mut Vec<String>,
) -> (r: String)
    ensures
        r@ == resolved_variable(opt_view(*field), key@, environment@).0,
        final(errors).deep_view() == old(errors).deep_view() + resolved_variable(
            opt_view(*field),
            key@,
            environment@,
        ).1,
{
    let ghost before = *errors;
    let raw = match field {
        None => {
            let message = join3(key, " field doesn't exist.", "");
            assert(message@ =~= missing_message(key@)) by {
                reveal_strlit("");
            }
            errors.push(message);
            proof {
                lemma_push_message(before, *errors, message);
            }
            return String::new();
        },
        Some(raw) => raw,
    };
    let name = trim(raw.as_str());
    if name.is_empty() {
        let message = join3(key, " field is empty.", "");
        assert(message@ =~= empty_message(key@)) by {
            reveal_strlit("");
        }
        errors.push(message);
        proof {
            lemma_push_message(before, *errors, message);
        }
        return String::new();
    }
    let reason = match environment.var(name) {
        Lookup::Found(value) => {
            assert(errors.deep_view() =~= old(errors).deep_view() + Seq::<Seq<char>>::empty());
            return value;
        },
        Lookup::NotPresent => "environment variable not found".to_owned(),
        Lookup::NotUnicode(shown) => {
            let mut reason = "environment variable was not valid unicode: ".to_owned();
            reason.append(shown.as_str());
            reason
        },
    };
    let mut message = join3("encountered a problem when trying to resolve ", name, ". (");
    message.append(reason.as_str());
    message.append(")");
    assert(message@ == unresolved_message(name@, reason@));
    errors.push(message);
    proof {
        lemma_push_message(before, *errors, message);
    }
    String::new()
}

/// Reads one text field of an image: its value, or `default` where the image
/// lacks it. A required field that is lacking adds a message to `errors`.
pub fn resolve_image_field(
    section: &str,
    value: &Option<String>,
    field: &str,
    required: bool,
    default: &str,
    errors: &mut Vec<String>,
) -> (r: String)
    ensures
        r@ == resolved_field(section@, opt_view(*value), field@, required, default@).0,
        final(errors).deep_view() == old(errors).deep_view() + resolved_field(
            section@,
            opt_view(*value),
            field@,
            required,
            default@,
        ).1,
{
    let ghost before = *errors;
    match value {
        Some(text) => {
            assert(errors.deep_view() =~= old(errors).deep_view() + Seq::<Seq<char>>::empty());
            text.clone()
        },
        None => {
            if required {
                let mut message = join3("in \"", section, "\" section: missing required field \"");
                message.append(field);
                message.append("\".");
                assert(message@ == missing_field_message(section@, field@));
                errors.push(message);
                proof {
                    lemma_push_message(before, *errors, message);
                }
            } else {
                assert(errors.deep_view() =~= old(errors).deep_view() + Seq::<Seq<char>>::empty());
            }
            default.to_owned()
        },
    }
}


/// Resolves the images of one registry of a configuration file that lies in
/// `directory`. Every image is resolved and adds its messages to `errors`;
/// where the file has no directory and an image is to be built, nothing
/// is returned.
pub fn collect_images(
    directory: &Option<String>,
    entries: &Vec<ImageEntry>,
    errors: &mut Vec<String>,
) -> (r: Result<Vec<ImageConfig>, ConfigError>)
    ensures
        final(errors).deep_view() == old(errors).deep_view() + images_errors(
            entries@.map_values(|entry: ImageEntry| entry@),
        ),
        match r {
            Ok(images) => collected_images(
                opt_view(*directory),
                entries@.map_values(|entry: ImageEntry| entry@),
            ) == Ok::<Seq<ImageConfigView>, ConfigError>(
                images@.map_values(|image: ImageConfig| image@),
            ),
            Err(error) => collected_images(
                opt_view(*directory),
                entries@.map_values(|entry: ImageEntry| entry@),
            ) == Err::<Seq<ImageConfigView>, ConfigError>(error),
        },
{
    let ghost all = entries@.map_values(|entry: ImageEntry| entry@);
    let ghost place = match opt_view(*directory) {
        Some(directory) => directory,
        None => Seq::<char>::empty(),
    };
    let mut images: Vec<ImageConfig> = Vec::new();
    let mut missing = false;
    let mut i: usize = 0;
    assert(images@.map_values(|image: ImageConfig| image@) =~= resolved_images(place, all.take(0)));
    assert(errors.deep_view() =~= old(errors).deep_view() + images_errors(all.take(0)));
    while i < entries.len()
        invariant
            i <= entries.len(),
            all == entries@.map_values(|entry: ImageEntry| entry@),
            place == match opt_view(*directory) {
                Some(directory) => directory,
                None => Seq::<char>::empty(),
            },
            images@.map_values(|image: ImageConfig| image@) == resolved_images(
                place,
                all.take(i as int),
            ),
            missing == (directory is None && !all_ignored(all.take(i as int))),
            errors.deep_view() == old(errors).deep_view() + images_errors(all.take(i as int)),
        decreases entries.len() - i,
    {
        let entry = &entries[i];
        let ghost before = images@.map_values(|image: ImageConfig| image@);
        let ghost listed = errors.deep_view();
        proof {
            assert(all[i as int] == entry@);
            assert(all.take(i + 1).drop_last() =~= all.take(i as int));
            assert(all.take(i + 1).last() == entry@);
        }
        let section = entry.section.as_str();
        let name = resolve_image_field(section, &entry.name, "name", true, "", errors);
        let tag = resolve_image_field(section, &entry.tag, "tag", false, "latest", errors);
        let ignored = match entry.ignore {
            Some(flag) => flag,
            None => false,
        };
        let image = if ignored {
            ImageConfig {
                path: String::new(),
                source: String::new(),
                repository: String::new(),
                name,
                tag,
                replace: false,
                ignore: true,
            }
        } else {
            let source = resolve_image_field(section, &entry.source, "source", true, "", errors);
            let repository = resolve_image_field(
                section,
                &entry.repository,
                "repository",
                true,
                "",
                errors,
            );
            let replace = match entry.replace {
                Some(flag) => flag,
                None => false,
            };
            let path = match directory {
                Some(directory) => directory.clone(),
                None => {
                    missing = true;
                    String::new()
                },
            };
            ImageConfig { path, source, repository, name, tag, replace, ignore: false }
        };
        proof {
            assert(image@ == resolved_image(place, entry@));
            assert(errors.deep_view() =~= listed + image_errors(entry@));
            assert(errors.deep_view() =~= old(errors).deep_view() + images_errors(
                all.take(i + 1),
            ));
            if all_ignored(all.take(i + 1)) {
                assert(is_ignored(all.take(i + 1)[i as int]));
                assert forall|k: int| 0 <= k < i implies is_ignored(
                    #[trigger] all.take(i as int)[k],
                ) by {
                    assert(all.take(i as int)[k] == all.take(i + 1)[k]);
                }
            } else if all_ignored(all.take(i as int)) && is_ignored(entry@) {
                assert forall|k: int| 0 <= k < i + 1 implies is_ignored(
                    #[trigger] all.take(i + 1)[k],
                ) by {
                    if k < i {
                        assert(all.take(i + 1)[k] == all.take(i as int)[k]);
                    }
                }
            }
        }
        images.push(image);
        assert(images@.map_values(|image: ImageConfig| image@) =~= before.push(image@));
        assert(resolved_images(place, all.take(i + 1)) =~= resolved_images(
            place,
            all.take(i as int),
        ).push(resolved_image(place, entry@)));
        i += 1;
    }
    assert(all.take(i as int) =~= all);
    if missing {
        Err(ConfigError::NoDirectory)
    } else {
        Ok(images)
    }
}

/// The credentials that `entry` resolves to: hostname, username, password.
pub open spec fn resolved_credentials(entry: RegistryEntryView, variables: Seq<VariableView>) -> (
    Seq<char>,
    Seq<char>,
    Seq<char>,
) {
    (
        resolved_variable(entry.hostname, "hostname"@, variables).0,
        resolved_variable(entry.username, "username"@, variables).0,
        resolved_variable(entry.password, "password"@, variables).0,
    )
}

/// The errors that resolving the credentials of `entry` gives.
pub open spec fn credential_errors(
    entry: RegistryEntryView,
    variables: Seq<VariableView>,
) -> Seq<Seq<char>> {
    resolved_variable(entry.hostname, "hostname"@, variables).1 + resolved_variable(
        entry.username,
        "username"@,
        variables,
    ).1 + resolved_variable(entry.password, "password"@, variables).1
}

/// The errors that resolving `entry` gives: those of its credentials, then
/// those of its images.
pub open spec fn registry_errors(
    entry: RegistryEntryView,
    variables: Seq<VariableView>,
) -> Seq<Seq<char>> {
    credential_errors(entry, variables) + images_errors(entry.images)
}

/// The registry that `entry` resolves to in a configuration file that lies in
/// `directory`.
pub open spec fn resolved_registry(
    directory: Option<Seq<char>>,
    entry: RegistryEntryView,
    variables: Seq<VariableView>,
) -> Result<RegistryConfigView, ConfigError> {
    match collected_images(directory, entry.images) {
        Err(error) => Err(error),
        Ok(images) => Ok(
            RegistryConfigView {
                hostname: resolved_credentials(entry, variables).0,
                username: resolved_credentials(entry, variables).1,
                password: resolved_credentials(entry, variables).2,
                images,
            },
        ),
    }
}

/// Resolves the credentials of a registry; its images are left empty. Each
/// field that does not resolve adds a message to `errors`.
pub fn read_registry_config(
    entry: &RegistryEntry,
    environment: &Environment,
    errors: &mut Vec<String>,
) -> (r: RegistryConfig)
    ensures
        r.hostname@ == resolved_credentials(entry@, environment@).0,
        r.username@ == resolved_credentials(entry@, environment@).1,
        r.password@ == resolved_credentials(entry@, environment@).2,
        r.images@.len() == 0,
        final(errors).deep_view() == old(errors).deep_view() + credential_errors(
            entry@,
            environment@,
        ),
{
    let hostname = resolve_environment_variable(&entry.hostname, "hostname", environment, errors);
    let username = resolve_environment_variable(&entry.username, "username", environment, errors);
    let password = resolve_environment_variable(&entry.password, "password", environment, errors);
    assert(errors.deep_view() =~= old(errors).deep_view() + credential_errors(
        entry@,
        environment@,
    ));
    RegistryConfig { hostname, username, password, images: Vec::new() }
}

/// The registries that were declared under one name, in the order in which
/// they were read.
#[derive(Debug, Clone, PartialEq, Eq)]
pub struct RegistryGroup {
    pub name: String,
    pub entries: Vec<RegistryConfig>,
}

pub struct RegistryGroupView {
    pub name: Seq<char>,
    pub entries: Seq<RegistryConfigView>,
}

impl View for RegistryGroup {
    type V = RegistryGroupView;

    open spec fn view(&self) -> RegistryGroupView {
        RegistryGroupView {
            name: self.name@,
            entries: self.entries@.map_values(|registry: RegistryConfig| registry@),
        }
    }
}

/// A registry of one configuration file of which a credential did not
/// resolve, with all the messages that resolving it gave. None of its images
/// is published.
#[derive(Debug, Clone, PartialEq, Eq)]
pub struct Rejection {
    pub file: String,
    pub registry: String,
    pub messages: Vec<String>,
}

pub struct RejectionView {
    pub file: Seq<char>,
    pub registry: Seq<char>,
    pub messages: Seq<Seq<char>>,
}

impl View for Rejection {
    type V = RejectionView;

    open spec fn view(&self) -> RejectionView {
        RejectionView {
            file: self.file@,
            registry: self.registry@,
            messages: self.messages.deep_view(),
        }
    }
}

/// A registry of one configuration file that resolved, but with images that
/// lack a required field: the messages say which. The registry is kept with
/// all its images; in such an image the lacking field is empty.
#[derive(Debug, Clone, PartialEq, Eq)]
pub struct Notice {
    pub file: String,
    pub registry: String,
    pub messages: Vec<String>,
}

pub struct NoticeView {
    pub file: Seq<char>,
    pub registry: Seq<char>,
    pub messages: Seq<Seq<char>>,
}

impl View for Notice {
    type V = NoticeView;

    open spec fn view(&self) -> NoticeView {
        NoticeView {
            file: self.file@,
            registry: self.registry@,
            messages: self.messages.deep_view(),
        }
    }
}

/// What to publish: for each registry name the registries whose credentials
/// resolved. Beside them stand the registries that were rejected because a
/// credential did not resolve, and the notices on images that lack a field.
#[derive(Debug, Clone, PartialEq, Eq)]
pub struct DeploymentConfig {
    pub registries: Vec<RegistryGroup>,
    pub rejections: Vec<Rejection>,
    pub notices: Vec<Notice>,
}

pub struct DeploymentConfigView {
    pub registries: Seq<RegistryGroupView>,
    pub rejections: Seq<RejectionView>,
    pub notices: Seq<NoticeView>,
}

/// The configuration that holds nothing.
pub open spec fn empty_config() -> DeploymentConfigView {
    DeploymentConfigView {
        registries: Seq::empty(),
        rejections: Seq::empty(),
        notices: Seq::empty(),
    }
}

impl View for DeploymentConfig {
    type V = DeploymentConfigView;

    open spec fn view(&self) -> DeploymentConfigView {
        DeploymentConfigView {
            registries: self.registries@.map_values(|group: RegistryGroup| group@),
            rejections: self.rejections@.map_values(|rejection: Rejection| rejection@),
            notices: self.notices@.map_values(|notice: Notice| notice@),
        }
    }
}

/// The position of the first group called `name`; the number of groups where
/// there is none.
pub open spec fn group_position(groups: Seq<RegistryGroupView>, name: Seq<char>) -> int
    decreases groups.len(),
{
    if groups.len() == 0 {
        0
    } else if groups[0].name == name {
        0
    } else {
        1 + group_position(groups.drop_first(), name)
    }
}

/// `groups` after `registry` has been put at the end of the group called
/// `name`, which is made at the end where there was none.
pub open spec fn accepted(
    groups: Seq<RegistryGroupView>,
    name: Seq<char>,
    registry: RegistryConfigView,
) -> Seq<RegistryGroupView> {
    let at = group_position(groups, name);
    if at < groups.len() {
        groups.update(at, RegistryGroupView { name, entries: groups[at].entries.push(registry) })
    } else {
        groups.push(RegistryGroupView { name, entries: seq![registry] })
    }
}

/// The notices after the images of the registry `entry` of the file `file`
/// have been resolved: one more where an image lacks a required field.
pub open spec fn noticed(
    notices: Seq<NoticeView>,
    file: Seq<char>,
    entry: RegistryEntryView,
) -> Seq<NoticeView> {
    if images_errors(entry.images).len() == 0 {
        notices
    } else {
        notices.push(
            NoticeView { file, registry: entry.name, messages: images_errors(entry.images) },
        )
    }
}

/// `config` after the registry `entry` of the configuration file `file`,
/// which lies in `directory`, has been resolved. Where its credentials
/// resolve it joins the registries of its name with all its images, and
/// what its images lack is noticed; otherwise it joins the rejections.
pub open spec fn added_registry(
    config: DeploymentConfigView,
    file: Seq<char>,
    directory: Option<Seq<char>>,
    entry: RegistryEntryView,
    variables: Seq<VariableView>,
) -> Result<DeploymentConfigView, ConfigError> {
    match resolved_registry(directory, entry, variables) {
        Err(error) => Err(error),
        Ok(registry) => if credential_errors(entry, variables).len() == 0 {
            Ok(
                DeploymentConfigView {
                    registries: accepted(config.registries, entry.name, registry),
                    rejections: config.rejections,
                    notices: noticed(config.notices, file, entry),
                },
            )
        } else {
            Ok(
                DeploymentConfigView {
                    registries: config.registries,
                    rejections: config.rejections.push(
                        RejectionView {
                            file,
                            registry: entry.name,
                            messages: registry_errors(entry, variables),
                        },
                    ),
                    notices: config.notices,
                },
            )
        },
    }
}

/// `config` after the registries `entries` of one configuration file have
/// been resolved in order.
pub open spec fn added_registries(
    config: DeploymentConfigView,
    file: Seq<char>,
    directory: Option<Seq<char>>,
    entries: Seq<RegistryEntryView>,
    variables: Seq<VariableView>,
) -> Result<DeploymentConfigView, ConfigError>
    decreases entries.len(),
{
    if entries.len() == 0 {
        Ok(config)
    } else {
        match added_registries(config, file, directory, entries.drop_last(), variables) {
            Err(error) => Err(error),
            Ok(before) => added_registry(before, file, directory, entries.last(), variables),
        }
    }
}

/// `config` after the configuration files `documents` have been resolved in
/// order.
pub open spec fn added_documents(
    config: DeploymentConfigView,
    documents: Seq<DocumentView>,
    variables: Seq<VariableView>,
) -> Result<DeploymentConfigView, ConfigError>
    decreases documents.len(),
{
    if documents.len() == 0 {
        Ok(config)
    } else {
        match added_documents(config, documents.drop_last(), variables) {
            Err(error) => Err(error),
            Ok(before) => added_registries(
                before,
                documents.last().path,
                path_parent(documents.last().path),
                documents.last().registries,
                variables,
            ),
        }
    }
}

/// What the configuration files `documents` resolve to.
pub open spec fn collected_registries(
    documents: Seq<DocumentView>,
    variables: Seq<VariableView>,
) -> Result<DeploymentConfigView, ConfigError> {
    added_documents(empty_config(), documents, variables)
}

/// Registries of which a leading part fails fail in the same way.
pub proof fn lemma_added_registries_prefix(
    config: DeploymentConfigView,
    file: Seq<char>,
    directory: Option<Seq<char>>,
    entries: Seq<RegistryEntryView>,
    variables: Seq<VariableView>,
    n: int,
)
    requires
        0 <= n <= entries.len(),
        added_registries(config, file, directory, entries.take(n), variables) is Err,
    ensures
        added_registries(config, file, directory, entries, variables) == added_registries(
            config,
            file,
            directory,
            entries.take(n),
            variables,
        ),
    decreases entries.len(),
{
    if n == entries.len() {
        assert(entries.take(n) =~= entries);
    } else {
        assert(entries.drop_last().take(n) =~= entries.take(n));
        lemma_added_registries_prefix(config, file, directory, entries.drop_last(), variables, n);
    }
}

/// Configuration files of which a leading part fails fail in the same way.
pub proof fn lemma_added_documents_prefix(
    config: DeploymentConfigView,
    documents: Seq<DocumentView>,
    variables: Seq<VariableView>,
    n: int,
)
    requires
        0 <= n <= documents.len(),
        added_documents(config, documents.take(n), variables) is Err,
    ensures
        added_documents(config, documents, variables) == added_documents(
            config,
            documents.take(n),
            variables,
        ),
    decreases documents.len(),
{
    if n == documents.len() {
        assert(documents.take(n) =~= documents);
    } else {
        assert(documents.drop_last().take(n) =~= documents.take(n));
        lemma_added_documents_prefix(config, documents.drop_last(), variables, n);
    }
}

/// The position of a group is the first index at which its name stands.
pub proof fn lemma_group_position(groups: Seq<RegistryGroupView>, name: Seq<char>, at: int)
    requires
        0 <= at <= groups.len(),
        forall|k: int| 0 <= k < at ==> (#[trigger] groups[k]).name != name,
        at < groups.len() ==> groups[at].name == name,
    ensures
        group_position(groups, name) == at,
    decreases groups.len(),
{
    if groups.len() > 0 && at > 0 {
        let rest = groups.drop_first();
        assert(groups[0].name != name);
        assert forall|k: int| 0 <= k < at - 1 implies (#[trigger] rest[k]).name != name by {
            assert(rest[k] == groups[k + 1]);
        }
        lemma_group_position(rest, name, at - 1);
    }
}

impl DeploymentConfig {
    /// The configuration that holds nothing.
    pub fn new() -> (r: DeploymentConfig)
        ensures
            r@ == empty_config(),
    {
        let config = DeploymentConfig {
            registries: Vec::new(),
            rejections: Vec::new(),
            notices: Vec::new(),
        };
        assert(config@.registries =~= Seq::empty() && config@.rejections =~= Seq::empty()
            && config@.notices =~= Seq::empty());
        config
    }

    /// Puts `registry` at the end of the group called `name`.
    fn accept(&mut self, name: &str, registry: RegistryConfig)
        ensures
            final(self)@.registries == accepted(old(self)@.registries, name@, registry@),
            final(self)@.rejections == old(self)@.rejections,
            final(self)@.notices == old(self)@.notices,
    {
        let ghost groups = self@.registries;
        let mut at: usize = 0;
        while at < self.registries.len() && !equal(self.registries[at].name.as_str(), name)
            invariant
                at <= self.registries.len(),
                *self == *old(self),
                groups == self@.registries,
                forall|k: int| 0 <= k < at ==> (#[trigger] groups[k]).name != name@,
            decreases self.registries.len() - at,
        {
            assert(groups[at as int] == self.registries@[at as int]@);
            at += 1;
        }
        proof {
            if at < self.registries.len() {
                assert(groups[at as int] == self.registries@[at as int]@);
            }
            lemma_group_position(groups, name@, at as int);
        }
        if at < self.registries.len() {
            let mut group = self.registries.remove(at);
            let ghost entries = group@.entries;
            group.entries.push(registry);
            assert(group@.entries =~= entries.push(registry@));
            assert(group@.name == name@);
            self.registries.insert(at, group);
            assert(self@.registries =~= accepted(groups, name@, registry@));
        } else {
            let mut entries: Vec<RegistryConfig> = Vec::new();
            entries.push(registry);
            let group = RegistryGroup { name: name.to_owned(), entries };
            assert(group@.entries =~= seq![registry@]);
            self.registries.push(group);
            assert(self@.registries =~= accepted(groups, name@, registry@));
        }
    }

    /// Resolves the registry `entry` of the configuration file `file`, which
    /// lies in `directory`, and adds it to this configuration.
    pub fn add_registry(
        self,
        file: &str,
        directory: &Option<String>,
        entry: &RegistryEntry,
        environment: &Environment,
    ) -> (r: Result<DeploymentConfig, ConfigError>)
        ensures
            match r {
                Ok(config) => added_registry(
                    self@,
                    file@,
                    opt_view(*directory),
                    entry@,
                    environment@,
                ) == Ok::<DeploymentConfigView, ConfigError>(config@),
                Err(error) => added_registry(
                    self@,
                    file@,
                    opt_view(*directory),
                    entry@,
                    environment@,
                ) == Err::<DeploymentConfigView, ConfigError>(error),
            },
    {
        let mut config = self;
        let mut messages: Vec<String> = Vec::new();
        assert(messages.deep_view() =~= Seq::<Seq<char>>::empty());
        let credentials = read_registry_config(entry, environment, &mut messages);
        assert(messages.deep_view() =~= credential_errors(entry@, environment@));
        let mut lacking: Vec<String> = Vec::new();
        assert(lacking.deep_view() =~= Seq::<Seq<char>>::empty());
        let images = match collect_images(directory, &entry.images, &mut lacking) {
            Ok(images) => images,
            Err(error) => {
                return Err(error);
            },
        };
        assert(lacking.deep_view() =~= images_errors(entry@.images));
        let registry = RegistryConfig {
            hostname: credentials.hostname,
            username: credentials.username,
            password: credentials.password,
            images,
        };
        if messages.len() == 0 {
            config.accept(entry.name.as_str(), registry);
            if lacking.len() > 0 {
                let ghost before = config@.notices;
                let notice = Notice {
                    file: file.to_owned(),
                    registry: entry.name.clone(),
                    messages: lacking,
                };
                config.notices.push(notice);
                assert(config@.notices =~= before.push(notice@));
            }
            Ok(config)
        } else {
            let ghost before = config@.rejections;
            let ghost first = messages.deep_view();
            let ghost second = lacking.deep_view();
            messages.append(&mut lacking);
            assert(messages.deep_view() =~= first + second);
            let rejection = Rejection {
                file: file.to_owned(),
                registry: entry.name.clone(),
                messages,
            };
            config.rejections.push(rejection);
            assert(config@.rejections =~= before.push(rejection@));
            Ok(config)
        }
    }

    /// Resolves the registries of one configuration file in order and adds
    /// them to this configuration.
    pub fn add_document(self, document: &Document, environment: &Environment) -> (r: Result<
        DeploymentConfig,
        ConfigError,
    >)
        ensures
            match r {
                Ok(config) => added_registries(
                    self@,
                    document@.path,
                    path_parent(document@.path),
                    document@.registries,
                    environment@,
                ) == Ok::<DeploymentConfigView, ConfigError>(config@),
                Err(error) => added_registries(
                    self@,
                    document@.path,
                    path_parent(document@.path),
                    document@.registries,
                    environment@,
                ) == Err::<DeploymentConfigView, ConfigError>(error),
            },
    {
        let directory = parent(document.path.as_str());
        let ghost start = self@;
        let ghost all = document@.registries;
        let ghost place = path_parent(document@.path);
        let mut config = self;
        let mut i: usize = 0;
        while i < document.registries.len()
            invariant
                i <= document.registries.len(),
                start == self@,
                all == document@.registries,
                place == path_parent(document@.path),
                opt_view(directory) == place,
                added_registries(start, document@.path, place, all.take(i as int), environment@)
                    == Ok::<DeploymentConfigView, ConfigError>(config@),
            decreases document.registries.len() - i,
        {
            let entry = &document.registries[i];
            proof {
                assert(all[i as int] == entry@);
                assert(all.take(i + 1).drop_last() =~= all.take(i as int));
                assert(all.take(i + 1).last() == entry@);
            }
            config = match config.add_registry(
                document.path.as_str(),
                &directory,
                entry,
                environment,
            ) {
                Ok(config) => config,
                Err(error) => {
                    proof {
                        assert(added_registries(
                            start,
                            document@.path,
                            place,
                            all.take(i + 1),
                            environment@,
                        ) == Err::<DeploymentConfigView, ConfigError>(error));
                        lemma_added_registries_prefix(
                            start,
                            document@.path,
                            place,
                            all,
                            environment@,
                            i + 1,
                        );
                    }
                    return Err(error);
                },
            };
            i += 1;
        }
        assert(all.take(i as int) =~= all);
        Ok(config)
    }

    /// Resolves the configuration files `documents` in order: every registry
    /// whose credentials resolve joins the registries of its name, every
    /// other one the rejections. No name stands twice in the result, and
    /// every name has a registry.
    pub fn collect_registries(documents: &Vec<Document>, environment: &Environment) -> (r: Result<
        DeploymentConfig,
        ConfigError,
    >)
        ensures
            match r {
                Ok(config) => collected_registries(
                    documents@.map_values(|document: Document| document@),
                    environment@,
                ) == Ok::<DeploymentConfigView, ConfigError>(config@),
                Err(error) => collected_registries(
                    documents@.map_values(|document: Document| document@),
                    environment@,
                ) == Err::<DeploymentConfigView, ConfigError>(error),
            },
            r matches Ok(config) ==> well_grouped(config@.registries),
    {
        let ghost all = documents@.map_values(|document: Document| document@);
        let mut config = DeploymentConfig::new();
        let ghost start = config@;
        let mut i: usize = 0;
        while i < documents.len()
            invariant
                i <= documents.len(),
                all == documents@.map_values(|document: Document| document@),
                start == empty_config(),
                added_documents(start, all.take(i as int), environment@) == Ok::<
                    DeploymentConfigView,
                    ConfigError,
                >(config@),
            decreases documents.len() - i,
        {
            let document = &documents[i];
            proof {
                assert(all[i as int] == document@);
                assert(all.take(i + 1).drop_last() =~= all.take(i as int));
                assert(all.take(i + 1).last() == document@);
            }
            config = match config.add_document(document, environment) {
                Ok(config) => config,
                Err(error) => {
                    proof {
                        assert(added_documents(start, all.take(i + 1), environment@) == Err::<
                            DeploymentConfigView,
                            ConfigError,
                        >(error));
                        lemma_added_documents_prefix(start, all, environment@, i + 1);
                    }
                    return Err(error);
                },
            };
            i += 1;
        }
        assert(all.take(i as int) =~= all);
        proof {
            lemma_added_documents_are_well_grouped(start, all, environment@);
        }
        Ok(config)
    }
}


/// A file that was found below the root, with its text.
#[derive(Debug, Clone, PartialEq, Eq)]
pub struct SourceFile {
    pub path: String,
    pub content: String,
}

pub struct SourceFileView {
    pub path: Seq<char>,
    pub content: Seq<char>,
}

impl View for SourceFile {
    type V = SourceFileView;

    open spec fn view(&self) -> SourceFileView {
        SourceFileView { path: self.path@, content: self.content@ }
    }
}

/// The paths of `paths` that end with `suffix`, in their order.
pub open spec fn selected(paths: Seq<Seq<char>>, suffix: Seq<char>) -> Seq<Seq<char>>
    decreases paths.len(),
{
    if paths.len() == 0 {
        Seq::empty()
    } else if suffix.is_suffix_of(paths.last()) {
        selected(paths.drop_last(), suffix).push(paths.last())
    } else {
        selected(paths.drop_last(), suffix)
    }
}

/// The configuration files among `paths`: those whose path ends with
/// `config_file`, in lexicographic order.
pub open spec fn config_files(config_file: Seq<char>, paths: Seq<Seq<char>>) -> Seq<Seq<char>> {
    sorted(selected(paths, config_file))
}

/// The text of the first file of `files` at `path`; empty where there is
/// none.
pub open spec fn content_of(files: Seq<SourceFileView>, path: Seq<char>) -> Seq<char>
    decreases files.len(),
{
    if files.len() == 0 {
        Seq::empty()
    } else if files[0].path == path {
        files[0].content
    } else {
        content_of(files.drop_first(), path)
    }
}

/// The documents that the files at `paths` are, in order.
pub open spec fn parsed_documents(paths: Seq<Seq<char>>, files: Seq<SourceFileView>) -> Result<
    Seq<DocumentView>,
    ConfigError,
>
    decreases paths.len(),
{
    if paths.len() == 0 {
        Ok(Seq::empty())
    } else {
        match parsed_documents(paths.drop_last(), files) {
            Err(error) => Err(error),
            Ok(before) => match document(paths.last(), content_of(files, paths.last())) {
                Err(error) => Err(error),
                Ok(read) => Ok(before.push(read)),
            },
        }
    }
}

/// What the files `files` configure: the configuration files among them are
/// read in the order of their paths, then resolved in that order.
pub open spec fn looked_up(
    config_file: Seq<char>,
    files: Seq<SourceFileView>,
    variables: Seq<VariableView>,
) -> Result<DeploymentConfigView, ConfigError> {
    let paths = config_files(config_file, files.map_values(|file: SourceFileView| file.path));
    match parsed_documents(paths, files) {
        Err(error) => Err(error),
        Ok(documents) => collected_registries(documents, variables),
    }
}

/// Paths of which a leading part cannot be read cannot be read.
pub proof fn lemma_parsed_documents_prefix(
    paths: Seq<Seq<char>>,
    files: Seq<SourceFileView>,
    n: int,
)
    requires
        0 <= n <= paths.len(),
        parsed_documents(paths.take(n), files) is Err,
    ensures
        parsed_documents(paths, files) == parsed_documents(paths.take(n), files),
    decreases paths.len(),
{
    if n == paths.len() {
        assert(paths.take(n) =~= paths);
    } else {
        assert(paths.drop_last().take(n) =~= paths.take(n));
        lemma_parsed_documents_prefix(paths.drop_last(), files, n);
    }
}

/// The text of the first file of `files` at `path`.
fn find_content<'a>(files: &'a Vec<SourceFile>, path: &str) -> (r: Option<&'a String>)
    ensures
        match r {
            Some(content) => content@ == content_of(
                files@.map_values(|file: SourceFile| file@),
                path@,
            ),
            None => content_of(files@.map_values(|file: SourceFile| file@), path@).len() == 0,
        },
{
    let ghost all = files@.map_values(|file: SourceFile| file@);
    let mut i: usize = 0;
    assert(all.skip(0) =~= all);
    while i < files.len()
        invariant
            i <= files.len(),
            all == files@.map_values(|file: SourceFile| file@),
            content_of(all, path@) == content_of(all.skip(i as int), path@),
        decreases files.len() - i,
    {
        let file = &files[i];
        let ghost rest = all.skip(i as int);
        assert(rest[0] == file@);
        if equal(file.path.as_str(), path) {
            return Some(&file.content);
        }
        assert(rest.drop_first() =~= all.skip(i + 1));
        i += 1;
    }
    None
}

impl DeploymentConfig {
    /// The configuration files among `files`: the paths that end with
    /// `config_file`, in lexicographic order.
    pub fn collect_config_files(config_file: &str, files: &Vec<String>) -> (r: Vec<String>)
        ensures
            r.deep_view() == config_files(config_file@, files.deep_view()),
            ordered(r.deep_view()),
            r.deep_view().to_multiset() == selected(files.deep_view(), config_file@).to_multiset(),
    {
        let ghost all = files.deep_view();
        let mut chosen: Vec<String> = Vec::new();
        let mut i: usize = 0;
        assert(chosen.deep_view() =~= selected(all.take(0), config_file@));
        while i < files.len()
            invariant
                i <= files.len(),
                all == files.deep_view(),
                chosen.deep_view() == selected(all.take(i as int), config_file@),
            decreases files.len() - i,
        {
            let ghost before = chosen.deep_view();
            proof {
                assert(all[i as int] == files@[i as int]@);
                assert(all.take(i + 1).drop_last() =~= all.take(i as int));
                assert(all.take(i + 1).last() == files@[i as int]@);
            }
            if ends_with(files[i].as_str(), config_file) {
                let file = files[i].clone();
                chosen.push(file);
                assert(chosen.deep_view() =~= before.push(file@));
            }
            i += 1;
        }
        assert(all.take(i as int) =~= all);
        proof {
            lemma_config_files_are_ordered(config_file@, all);
        }
        sort(chosen)
    }

    /// Builds the configuration from the files that were found below the
    /// root: those whose path ends with `config_file` are read as
    /// configuration files, in the order of their paths, and their registries
    /// are resolved against `environment`.
    pub fn lookup(config_file: &str, files: &Vec<SourceFile>, environment: &Environment) -> (r:
        Result<DeploymentConfig, ConfigError>)
        ensures
            match r {
                Ok(config) => looked_up(
                    config_file@,
                    files@.map_values(|file: SourceFile| file@),
                    environment@,
                ) == Ok::<DeploymentConfigView, ConfigError>(config@),
                Err(error) => looked_up(
                    config_file@,
                    files@.map_values(|file: SourceFile| file@),
                    environment@,
                ) == Err::<DeploymentConfigView, ConfigError>(error),
            },
            r matches Ok(config) ==> well_grouped(config@.registries),
    {
        let ghost all = files@.map_values(|file: SourceFile| file@);
        let mut paths: Vec<String> = Vec::new();
        let mut i: usize = 0;
        while i < files.len()
            invariant
                i <= files.len(),
                all == files@.map_values(|file: SourceFile| file@),
                paths.deep_view() == all.map_values(|file: SourceFileView| file.path).take(
                    i as int,
                ),
            decreases files.len() - i,
        {
            let ghost before = paths.deep_view();
            let path = files[i].path.clone();
            paths.push(path);
            assert(paths.deep_view() =~= before.push(path@));
            assert(all[i as int] == files@[i as int]@);
            assert(paths.deep_view() =~= all.map_values(|file: SourceFileView| file.path).take(
                i + 1,
            ));
            i += 1;
        }
        assert(paths.deep_view() =~= all.map_values(|file: SourceFileView| file.path));
        let chosen = DeploymentConfig::collect_config_files(config_file, &paths);
        let ghost order = chosen.deep_view();
        let mut documents: Vec<Document> = Vec::new();
        let mut j: usize = 0;
        assert(documents@.map_values(|document: Document| document@) =~= Seq::empty());
        while j < chosen.len()
            invariant
                j <= chosen.len(),
                all == files@.map_values(|file: SourceFile| file@),
                order == chosen.deep_view(),
                order == config_files(
                    config_file@,
                    all.map_values(|file: SourceFileView| file.path),
                ),
                parsed_documents(order.take(j as int), all) == Ok::<
                    Seq<DocumentView>,
                    ConfigError,
                >(documents@.map_values(|document: Document| document@)),
            decreases chosen.len() - j,
        {
            let path = chosen[j].as_str();
            let ghost before = documents@.map_values(|document: Document| document@);
            proof {
                assert(order[j as int] == path@);
                assert(order.take(j + 1).drop_last() =~= order.take(j as int));
                assert(order.take(j + 1).last() == path@);
            }
            let content = match find_content(files, path) {
                Some(content) => content.as_str(),
                None => "",
            };
            proof {
                reveal_strlit("");
                assert(content@ =~= content_of(all, path@));
            }
            match Document::parse(path, content) {
                Ok(document) => {
                    documents.push(document);
                    assert(documents@.map_values(|document: Document| document@) =~= before.push(
                        document@,
                    ));
                },
                Err(error) => {
                    proof {
                        assert(parsed_documents(order.take(j + 1), all) == Err::<
                            Seq<DocumentView>,
                            ConfigError,
                        >(error));
                        lemma_parsed_documents_prefix(order, all, j + 1);
                    }
                    return Err(error);
                },
            }
            j += 1;
        }
        assert(order.take(j as int) =~= order);
        DeploymentConfig::collect_registries(&documents, environment)
    }
}

/// Why the name of the configuration file cannot be used.
#[derive(Debug, Clone, Copy, PartialEq, Eq, Structural)]
pub enum AppConfigError {
    /// The variable `CONFIG_FILE` is not set.
    NotPresent,
    /// The variable `CONFIG_FILE` holds no valid Unicode.
    NotUnicode,
    /// The name holds a `/`, so it is a path and no file name.
    Directory,
    /// The name does not end with `.toml`.
    NotToml,
}

/// The name of the configuration files to look for.
#[derive(Debug, Clone, PartialEq, Eq)]
pub struct AppConfig {
    pub config_file: String,
}

/// The configuration file name that the environment `variables` asks for.
pub open spec fn app_config_file(variables: Seq<VariableView>) -> Result<
    Seq<char>,
    AppConfigError,
> {
    match lookup(variables, "CONFIG_FILE"@) {
        LookupView::NotPresent => Err(AppConfigError::NotPresent),
        LookupView::NotUnicode(_) => Err(AppConfigError::NotUnicode),
        LookupView::Found(value) => {
            let name = trimmed(value);
            if name.contains('/') {
                Err(AppConfigError::Directory)
            } else if !".toml"@.is_suffix_of(name) {
                Err(AppConfigError::NotToml)
            } else {
                Ok(name)
            }
        },
    }
}

impl AppConfig {
    /// Reads the name of the configuration files from the variable
    /// `CONFIG_FILE`: without the whitespace around it, it has to be a file
    /// name that ends with `.toml`.
    pub fn lookup(environment: &Environment) -> (r: Result<AppConfig, AppConfigError>)
        ensures
            match r {
                Ok(config) => app_config_file(environment@) == Ok::<Seq<char>, AppConfigError>(
                    config.config_file@,
                ),
                Err(error) => app_config_file(environment@) == Err::<Seq<char>, AppConfigError>(
                    error,
                ),
            },
    {
        let value = match environment.var("CONFIG_FILE") {
            Lookup::Found(value) => value,
            Lookup::NotPresent => {
                return Err(AppConfigError::NotPresent);
            },
            Lookup::NotUnicode(_) => {
                return Err(AppConfigError::NotUnicode);
            },
        };
        let name = trim(value.as_str());
        if contains_char(name, '/') {
            return Err(AppConfigError::Directory);
        }
        if !ends_with(name, ".toml") {
            return Err(AppConfigError::NotToml);
        }
        Ok(AppConfig { config_file: name.to_owned() })
    }
}

/// Whether the environment `variables` asks for a dry run: the variable
/// `DRY_RUN` holds exactly `true`.
pub open spec fn dry_run(variables: Seq<VariableView>) -> bool {
    lookup(variables, "DRY_RUN"@) == LookupView::Found("true"@)
}

/// Whether images are built but neither tagged nor pushed.
pub fn is_dry_run(environment: &Environment) -> (r: bool)
    ensures
        r == dry_run(environment@),
{
    match environment.var("DRY_RUN") {
        Lookup::Found(value) => equal(value.as_str(), "true"),
        _ => false,
    }
}


/// Whether the registry `entry` lacks one of its credential fields.
pub open spec fn lacks_credential(entry: RegistryEntryView) -> bool {
    entry.hostname is None || entry.username is None || entry.password is None
}

/// Whether the image `entry` lacks a field that it has to have: its name,
/// and, unless it is left alone, its source and its repository.
pub open spec fn lacks_field(entry: ImageEntryView) -> bool {
    entry.name is None || (!is_ignored(entry) && (entry.source is None
        || entry.repository is None))
}

/// The errors of the images of a registry hold the errors of each image.
pub proof fn lemma_image_errors_are_kept(entries: Seq<ImageEntryView>, i: int, k: int)
    requires
        0 <= i < entries.len(),
        0 <= k < image_errors(entries[i]).len(),
    ensures
        images_errors(entries).contains(image_errors(entries[i])[k]),
    decreases entries.len(),
{
    let all = images_errors(entries);
    let before = images_errors(entries.drop_last());
    let last = image_errors(entries.last());
    if i == entries.len() - 1 {
        assert(all[before.len() + k] == last[k]);
    } else {
        assert(entries.drop_last()[i] == entries[i]);
        lemma_image_errors_are_kept(entries.drop_last(), i, k);
        let at = choose|at: int|
            0 <= at < before.len() && before[at] == image_errors(entries[i])[k];
        assert(all[at] == before[at]);
    }
}

/// A registry that lacks a credential field has an error recorded for that
/// field and is rejected: it joins the rejections with all its messages, and
/// none of its images joins the registries.
pub proof fn lemma_registry_without_credential_is_rejected(
    config: DeploymentConfigView,
    file: Seq<char>,
    directory: Option<Seq<char>>,
    entry: RegistryEntryView,
    variables: Seq<VariableView>,
)
    requires
        lacks_credential(entry),
    ensures
        entry.hostname is None ==> credential_errors(entry, variables).contains(
            missing_message("hostname"@),
        ),
        entry.username is None ==> credential_errors(entry, variables).contains(
            missing_message("username"@),
        ),
        entry.password is None ==> credential_errors(entry, variables).contains(
            missing_message("password"@),
        ),
        added_registry(config, file, directory, entry, variables) matches Ok(next)
            ==> next.registries == config.registries && next.notices == config.notices
            && next.rejections == config.rejections.push(
            RejectionView {
                file,
                registry: entry.name,
                messages: registry_errors(entry, variables),
            },
        ),
{
    let hostname = resolved_variable(entry.hostname, "hostname"@, variables).1;
    let username = resolved_variable(entry.username, "username"@, variables).1;
    let all = credential_errors(entry, variables);
    if entry.hostname is None {
        assert(all[0] == missing_message("hostname"@));
    }
    if entry.username is None {
        assert(all[hostname.len() as int] == missing_message("username"@));
    }
    if entry.password is None {
        assert(all[(hostname.len() + username.len()) as int] == missing_message("password"@));
    }
}

/// An image that lacks a required field is still resolved, with the field
/// empty, and has an error recorded for the field.
pub proof fn lemma_image_without_field_is_kept(directory: Seq<char>, entry: ImageEntryView)
    requires
        lacks_field(entry),
    ensures
        entry.name is None ==> resolved_image(directory, entry).name.len() == 0
            && image_errors(entry).contains(missing_field_message(entry.section, "name"@)),
        !is_ignored(entry) && entry.source is None ==> resolved_image(
            directory,
            entry,
        ).source.len() == 0 && image_errors(entry).contains(
            missing_field_message(entry.section, "source"@),
        ),
        !is_ignored(entry) && entry.repository is None ==> resolved_image(
            directory,
            entry,
        ).repository.len() == 0 && image_errors(entry).contains(
            missing_field_message(entry.section, "repository"@),
        ),
{
    reveal_strlit("");
    let name = resolved_field(entry.section, entry.name, "name"@, true, ""@).1;
    let source = resolved_field(entry.section, entry.source, "source"@, true, ""@).1;
    let all = image_errors(entry);
    if entry.name is None {
        assert(all[0] == missing_field_message(entry.section, "name"@));
    }
    if !is_ignored(entry) && entry.source is None {
        assert(all[name.len() as int] == missing_field_message(entry.section, "source"@));
    }
    if !is_ignored(entry) && entry.repository is None {
        assert(all[(name.len() + source.len()) as int] == missing_field_message(
            entry.section,
            "repository"@,
        ));
    }
}

/// A registry whose credentials resolve is kept whatever its images lack:
/// it joins the registries of its name with every one of its images, each
/// resolved on its own, so that an image that lacks a required field stands
/// there with that field empty beside the others; nothing is rejected, and
/// what is lacking is noticed.
pub proof fn lemma_registry_with_incomplete_image_is_kept(
    config: DeploymentConfigView,
    file: Seq<char>,
    directory: Seq<char>,
    entry: RegistryEntryView,
    variables: Seq<VariableView>,
    i: int,
)
    requires
        credential_errors(entry, variables).len() == 0,
        0 <= i < entry.images.len(),
        lacks_field(entry.images[i]),
    ensures
        resolved_registry(Some(directory), entry, variables) matches Ok(registry)
            && registry.images.len() == entry.images.len() && (forall|k: int|
            0 <= k < entry.images.len() ==> #[trigger] registry.images[k] == resolved_image(
                directory,
                entry.images[k],
            )) && added_registry(config, file, Some(directory), entry, variables) == Ok::<
            DeploymentConfigView,
            ConfigError,
        >(
            DeploymentConfigView {
                registries: accepted(config.registries, entry.name, registry),
                rejections: config.rejections,
                notices: config.notices.push(
                    NoticeView {
                        file,
                        registry: entry.name,
                        messages: images_errors(entry.images),
                    },
                ),
            },
        ),
        images_errors(entry.images).contains(image_errors(entry.images[i])[0]),
{
    let image = entry.images[i];
    lemma_image_without_field_is_kept(directory, image);
    assert(image_errors(image).len() > 0);
    lemma_image_errors_are_kept(entry.images, i, 0);
    assert(images_errors(entry.images).len() > 0);
}

/// In an image that is marked `ignore` the path, the source and the
/// repository are empty, and it does not replace anything.
pub proof fn lemma_ignored_image_is_cleared(directory: Seq<char>, entry: ImageEntryView)
    requires
        is_ignored(entry),
    ensures
        resolved_image(directory, entry).ignore,
        resolved_image(directory, entry).path.len() == 0,
        resolved_image(directory, entry).source.len() == 0,
        resolved_image(directory, entry).repository.len() == 0,
        !resolved_image(directory, entry).replace,
{
}


/// Whether `groups` stands for a mapping from registry names to registries:
/// no name stands twice, and every name has at least one registry.
pub open spec fn well_grouped(groups: Seq<RegistryGroupView>) -> bool {
    &&& forall|i: int, j: int|
        0 <= i < groups.len() && 0 <= j < groups.len() && i != j ==> (#[trigger] groups[i]).name
            != (#[trigger] groups[j]).name
    &&& forall|i: int| 0 <= i < groups.len() ==> (#[trigger] groups[i]).entries.len() > 0
}

/// The position of a name is that of the first group of that name, and lies
/// behind the last group where no group has the name.
pub proof fn lemma_group_position_finds(groups: Seq<RegistryGroupView>, name: Seq<char>)
    ensures
        0 <= group_position(groups, name) <= groups.len(),
        group_position(groups, name) < groups.len() ==> groups[group_position(
            groups,
            name,
        )].name == name,
        forall|k: int| 0 <= k < group_position(groups, name) ==> (#[trigger] groups[k]).name != name,
    decreases groups.len(),
{
    if groups.len() > 0 && groups[0].name != name {
        let rest = groups.drop_first();
        lemma_group_position_finds(rest, name);
        let at = group_position(rest, name);
        assert forall|k: int| 0 <= k < at + 1 implies (#[trigger] groups[k]).name != name by {
            if k > 0 {
                assert(groups[k] == rest[k - 1]);
            }
        }
        if at < rest.len() {
            assert(groups[at + 1] == rest[at]);
        }
    }
}

/// Accepting a registry keeps the groups a mapping: the registry comes last
/// under its name, and the registries of every other name stay as they are.
pub proof fn lemma_accepted_is_well_grouped(
    groups: Seq<RegistryGroupView>,
    name: Seq<char>,
    registry: RegistryConfigView,
)
    requires
        well_grouped(groups),
    ensures
        well_grouped(accepted(groups, name, registry)),
        exists|at: int|
            0 <= at < accepted(groups, name, registry).len() && (#[trigger] accepted(
                groups,
                name,
                registry,
            )[at]).name == name && accepted(groups, name, registry)[at].entries.last() == registry,
        forall|i: int|
            0 <= i < groups.len() && (#[trigger] groups[i]).name != name ==> accepted(
                groups,
                name,
                registry,
            )[i] == groups[i],
{
    lemma_group_position_finds(groups, name);
    let at = group_position(groups, name);
    let after = accepted(groups, name, registry);
    assert(after[at].name == name && after[at].entries.last() == registry);
    assert forall|i: int, j: int|
        0 <= i < after.len() && 0 <= j < after.len() && i != j implies (#[trigger] after[i]).name
        != (#[trigger] after[j]).name by {
        if at < groups.len() {
            assert(after[i].name == groups[i].name && after[j].name == groups[j].name);
        } else {
            if i < groups.len() {
                assert(after[i] == groups[i]);
            }
            if j < groups.len() {
                assert(after[j] == groups[j]);
            }
        }
    }
    assert forall|i: int| 0 <= i < after.len() implies (#[trigger] after[i]).entries.len() > 0 by {
        if i != at {
            assert(after[i] == groups[i]);
        }
    }
}

/// Resolving the registries of a configuration file keeps the groups a
/// mapping.
pub proof fn lemma_added_registries_are_well_grouped(
    config: DeploymentConfigView,
    file: Seq<char>,
    directory: Option<Seq<char>>,
    entries: Seq<RegistryEntryView>,
    variables: Seq<VariableView>,
)
    requires
        well_grouped(config.registries),
    ensures
        added_registries(config, file, directory, entries, variables) matches Ok(next)
            ==> well_grouped(next.registries),
    decreases entries.len(),
{
    if entries.len() > 0 {
        lemma_added_registries_are_well_grouped(
            config,
            file,
            directory,
            entries.drop_last(),
            variables,
        );
        match added_registries(config, file, directory, entries.drop_last(), variables) {
            Ok(before) => {
                match resolved_registry(directory, entries.last(), variables) {
                    Ok(registry) => {
                        lemma_accepted_is_well_grouped(
                            before.registries,
                            entries.last().name,
                            registry,
                        );
                    },
                    Err(_) => {},
                }
            },
            Err(_) => {},
        }
    }
}

/// Resolving configuration files keeps the groups a mapping.
pub proof fn lemma_added_documents_are_well_grouped(
    config: DeploymentConfigView,
    documents: Seq<DocumentView>,
    variables: Seq<VariableView>,
)
    requires
        well_grouped(config.registries),
    ensures
        added_documents(config, documents, variables) matches Ok(next) ==> well_grouped(
            next.registries,
        ),
    decreases documents.len(),
{
    if documents.len() > 0 {
        lemma_added_documents_are_well_grouped(config, documents.drop_last(), variables);
        match added_documents(config, documents.drop_last(), variables) {
            Ok(before) => {
                lemma_added_registries_are_well_grouped(
                    before,
                    documents.last().path,
                    path_parent(documents.last().path),
                    documents.last().registries,
                    variables,
                );
            },
            Err(_) => {},
        }
    }
}

/// The configuration files are handled in the order of their paths, and
/// they are the files whose path ends with the name that is looked for.
pub proof fn lemma_config_files_are_ordered(config_file: Seq<char>, paths: Seq<Seq<char>>)
    ensures
        ordered(config_files(config_file, paths)),
        config_files(config_file, paths).to_multiset() == selected(
            paths,
            config_file,
        ).to_multiset(),
        forall|i: int|
            0 <= i < selected(paths, config_file).len() ==> config_file.is_suffix_of(
                #[trigger] selected(paths, config_file)[i],
            ),
    decreases paths.len(),
{
    lemma_sorted(selected(paths, config_file));
    if paths.len() > 0 {
        lemma_config_files_are_ordered(config_file, paths.drop_last());
    }
}

} // verus!
