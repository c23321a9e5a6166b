//! Configuration documents: the TOML text of a configuration file, read into
//! the entries that the resolver works on.

use vstd::prelude::*;
use vstd::string::*;

verus! {

/// `toml::map::Map`, of which `toml::Table` is the case with `String` keys
/// and `toml::Value` values; nothing of its inside is known here.
#[verifier::external_type_specification]
#[verifier::external_body]
#[verifier::reject_recursive_types(K)]
#[verifier::reject_recursive_types(V)]
pub struct ExTomlMap<K, V>(toml::map::Map<K, V>);

/// `toml::Value`, a value of a TOML document; nothing of its inside is known
/// here.
#[verifier::external_type_specification]
#[verifier::external_body]
pub struct ExTomlValue(toml::Value);

/// `toml::de::Error`, the failure of the TOML parser; it is only told apart
/// from a success.
#[verifier::external_type_specification]
#[verifier::external_body]
pub struct ExTomlError(toml::de::Error);

/// The table that `content` denotes as a TOML document, if it is one.
pub uninterp spec fn toml_parse(content: Seq<char>) -> Option<toml::Table>;

/// The keys of `table` with their values, in the order in which the table
/// hands them out.
pub uninterp spec fn toml_items(table: toml::Table) -> Seq<(Seq<char>, toml::Value)>;

/// The value that `table` holds under `key`, if any.
pub uninterp spec fn toml_entry(table: toml::Table, key: Seq<char>) -> Option<toml::Value>;

/// The text of `value`, if it is a string.
pub uninterp spec fn toml_text(value: toml::Value) -> Option<Seq<char>>;

/// The truth value of `value`, if it is a boolean.
pub uninterp spec fn toml_flag(value: toml::Value) -> Option<bool>;

/// The table of `value`, if it is one.
pub uninterp spec fn toml_table(value: toml::Value) -> Option<toml::Table>;

/// Calls `str::parse::<toml::Table>`, that is `toml::from_str`: the parser
/// reads nothing but the text, so the table, or the failure, is a function of
/// the text.
#[verifier::external_body]
fn parse_table(content: &str) -> (r: Result<toml::Table, toml::de::Error>)
    ensures
        match r {
            Ok(table) => toml_parse(content@) == Some(table),
            Err(_) => toml_parse(content@) is None,
        },
{
    content.parse::<toml::Table>()
}

/// Calls `toml::map::Map::iter` and hands out each key, copied, with a
/// reference to its value, in the iterator's order.
#[verifier::external_body]
fn table_items<'a>(table: &'a toml::Table) -> (r: Vec<(String, &'a toml::Value)>)
    ensures
        r@.len() == toml_items(*table).len(),
        forall|i: int|
            0 <= i < r@.len() ==> (#[trigger] r@[i]).0@ == toml_items(*table)[i].0 && *r@[i].1
                == toml_items(*table)[i].1,
{
    table.iter().map(|(key, value)| (key.clone(), value)).collect()
}

/// Calls `toml::map::Map::get`.
#[verifier::external_body]
fn table_get<'a>(table: &'a toml::Table, key: &str) -> (r: Option<&'a toml::Value>)
    ensures
        match r {
            Some(value) => toml_entry(*table, key@) == Some(*value),
            None => toml_entry(*table, key@) is None,
        },
{
    table.get(key)
}

/// Calls `toml::Value::as_str`, which hands out the text of a string value
/// and nothing for any other value.
#[verifier::external_body]
fn value_as_str<'a>(value: &'a toml::Value) -> (r: Option<&'a str>)
    ensures
        match r {
            Some(text) => toml_text(*value) == Some(text@),
            None => toml_text(*value) is None,
        },
{
    value.as_str()
}

/// Calls `toml::Value::as_bool`, which hands out the truth value of a
/// boolean value and nothing for any other value.
#[verifier::external_body]
fn value_as_bool(value: &toml::Value) -> (r: Option<bool>)
    ensures
        r == toml_flag(*value),
{
    value.as_bool()
}

/// Calls `toml::Value::as_table`, which hands out the table of a table value
/// and nothing for any other value.
#[verifier::external_body]
fn value_as_table<'a>(value: &'a toml::Value) -> (r: Option<&'a toml::Table>)
    ensures
        match r {
            Some(table) => toml_table(*value) == Some(*table),
            None => toml_table(*value) is None,
        },
{
    value.as_table()
}


/// Why a configuration cannot be used at all.
#[derive(Debug, Clone, Copy, PartialEq, Eq, Structural)]
pub enum ConfigError {
    /// The text of a configuration file is not a TOML document.
    Syntax,
    /// A section or a field that is read is missing or has the wrong shape:
    /// no `registries` table, a registry or an image that is no table, a
    /// registry without an `images` table, a text field that holds no string
    /// or a flag that holds no boolean.
    Malformed,
    /// A configuration file's path has no parent directory, and one of its
    /// images is to be built.
    NoDirectory,
}

/// The view of an optional string.
pub open spec fn opt_view(text: Option<String>) -> Option<Seq<char>> {
    match text {
        Some(text) => Some(text@),
        None => None,
    }
}

/// An image as a configuration file declares it. The fields `source`,
/// `repository` and `replace` of an image that is marked `ignore` are not
/// read and stay `None`.
#[derive(Debug, Clone, PartialEq, Eq)]
pub struct ImageEntry {
    pub section: String,
    pub name: Option<String>,
    pub tag: Option<String>,
    pub ignore: Option<bool>,
    pub source: Option<String>,
    pub repository: Option<String>,
    pub replace: Option<bool>,
}

pub struct ImageEntryView {
    pub section: Seq<char>,
    pub name: Option<Seq<char>>,
    pub tag: Option<Seq<char>>,
    pub ignore: Option<bool>,
    pub source: Option<Seq<char>>,
    pub repository: Option<Seq<char>>,
    pub replace: Option<bool>,
}

impl View for ImageEntry {
    type V = ImageEntryView;

    open spec fn view(&self) -> ImageEntryView {
        ImageEntryView {
            section: self.section@,
            name: opt_view(self.name),
            tag: opt_view(self.tag),
            ignore: self.ignore,
            source: opt_view(self.source),
            repository: opt_view(self.repository),
            replace: self.replace,
        }
    }
}

/// A registry as a configuration file declares it: each credential field
/// names an environment variable.
#[derive(Debug, Clone, PartialEq, Eq)]
pub struct RegistryEntry {
    pub name: String,
    pub hostname: Option<String>,
    pub username: Option<String>,
    pub password: Option<String>,
    pub images: Vec<ImageEntry>,
}

pub struct RegistryEntryView {
    pub name: Seq<char>,
    pub hostname: Option<Seq<char>>,
    pub username: Option<Seq<char>>,
    pub password: Option<Seq<char>>,
    pub images: Seq<ImageEntryView>,
}

impl View for RegistryEntry {
    type V = RegistryEntryView;

    open spec fn view(&self) -> RegistryEntryView {
        RegistryEntryView {
            name: self.name@,
            hostname: opt_view(self.hostname),
            username: opt_view(self.username),
            password: opt_view(self.password),
            images: self.images@.map_values(|image: ImageEntry| image@),
        }
    }
}

/// One configuration file: its path and the registries that it declares.
#[derive(Debug, Clone, PartialEq, Eq)]
pub struct Document {
    pub path: String,
    pub registries: Vec<RegistryEntry>,
}

pub struct DocumentView {
    pub path: Seq<char>,
    pub registries: Seq<RegistryEntryView>,
}

impl View for Document {
    type V = DocumentView;

    open spec fn view(&self) -> DocumentView {
        DocumentView {
            path: self.path@,
            registries: self.registries@.map_values(|registry: RegistryEntry| registry@),
        }
    }
}

/// The text that `table` holds under `key`: nothing where the key is absent,
/// an error where its value is no string.
pub open spec fn text_at(table: toml::Table, key: Seq<char>) -> Result<
    Option<Seq<char>>,
    ConfigError,
> {
    match toml_entry(table, key) {
        None => Ok(None),
        Some(value) => match toml_text(value) {
            Some(text) => Ok(Some(text)),
            None => Err(ConfigError::Malformed),
        },
    }
}

/// The flag that `table` holds under `key`: nothing where the key is absent,
/// an error where its value is no boolean.
pub open spec fn flag_at(table: toml::Table, key: Seq<char>) -> Result<Option<bool>, ConfigError> {
    match toml_entry(table, key) {
        None => Ok(None),
        Some(value) => match toml_flag(value) {
            Some(flag) => Ok(Some(flag)),
            None => Err(ConfigError::Malformed),
        },
    }
}

/// The table that `table` holds under `key`; an error where there is none.
pub open spec fn table_at(table: toml::Table, key: Seq<char>) -> Result<toml::Table, ConfigError> {
    match toml_entry(table, key) {
        None => Err(ConfigError::Malformed),
        Some(value) => match toml_table(value) {
            Some(inner) => Ok(inner),
            None => Err(ConfigError::Malformed),
        },
    }
}

/// The image that the section `section` with the value `value` declares.
pub open spec fn image_entry(section: Seq<char>, value: toml::Value) -> Result<
    ImageEntryView,
    ConfigError,
> {
    match toml_table(value) {
        None => Err(ConfigError::Malformed),
        Some(table) => {
            let name = text_at(table, "name"@);
            let tag = text_at(table, "tag"@);
            let ignore = flag_at(table, "ignore"@);
            let source = text_at(table, "source"@);
            let repository = text_at(table, "repository"@);
            let replace = flag_at(table, "replace"@);
            if name is Err || tag is Err || ignore is Err {
                Err(ConfigError::Malformed)
            } else if ignore == Ok::<Option<bool>, ConfigError>(Some(true)) {
                Ok(
                    ImageEntryView {
                        section,
                        name: name->Ok_0,
                        tag: tag->Ok_0,
                        ignore: Some(true),
                        source: None,
                        repository: None,
                        replace: None,
                    },
                )
            } else if source is Err || repository is Err || replace is Err {
                Err(ConfigError::Malformed)
            } else {
                Ok(
                    ImageEntryView {
                        section,
                        name: name->Ok_0,
                        tag: tag->Ok_0,
                        ignore: ignore->Ok_0,
                        source: source->Ok_0,
                        repository: repository->Ok_0,
                        replace: replace->Ok_0,
                    },
                )
            }
        },
    }
}

/// The images that the sections `items` declare, in order.
pub open spec fn image_entries(items: Seq<(Seq<char>, toml::Value)>) -> Result<
    Seq<ImageEntryView>,
    ConfigError,
>
    decreases items.len(),
{
    if items.len() == 0 {
        Ok(Seq::empty())
    } else {
        match image_entries(items.drop_last()) {
            Err(error) => Err(error),
            Ok(before) => match image_entry(items.last().0, items.last().1) {
                Err(error) => Err(error),
                Ok(image) => Ok(before.push(image)),
            },
        }
    }
}

/// The registry that the section `name` with the value `value` declares.
pub open spec fn registry_entry(name: Seq<char>, value: toml::Value) -> Result<
    RegistryEntryView,
    ConfigError,
> {
    match toml_table(value) {
        None => Err(ConfigError::Malformed),
        Some(table) => {
            let hostname = text_at(table, "hostname"@);
            let username = text_at(table, "username"@);
            let password = text_at(table, "password"@);
            let images = table_at(table, "images"@);
            if hostname is Err || username is Err || password is Err || images is Err {
                Err(ConfigError::Malformed)
            } else {
                match image_entries(toml_items(images->Ok_0)) {
                    Err(error) => Err(error),
                    Ok(images) => Ok(
                        RegistryEntryView {
                            name,
                            hostname: hostname->Ok_0,
                            username: username->Ok_0,
                            password: password->Ok_0,
                            images,
                        },
                    ),
                }
            }
        },
    }
}

/// The registries that the sections `items` declare, in order.
pub open spec fn registry_entries(items: Seq<(Seq<char>, toml::Value)>) -> Result<
    Seq<RegistryEntryView>,
    ConfigError,
>
    decreases items.len(),
{
    if items.len() == 0 {
        Ok(Seq::empty())
    } else {
        match registry_entries(items.drop_last()) {
            Err(error) => Err(error),
            Ok(before) => match registry_entry(items.last().0, items.last().1) {
                Err(error) => Err(error),
                Ok(registry) => Ok(before.push(registry)),
            },
        }
    }
}

/// The document that the file at `path` with the text `content` is.
pub open spec fn document(path: Seq<char>, content: Seq<char>) -> Result<
    DocumentView,
    ConfigError,
> {
    match toml_parse(content) {
        None => Err(ConfigError::Syntax),
        Some(root) => match table_at(root, "registries"@) {
            Err(error) => Err(error),
            Ok(table) => match registry_entries(toml_items(table)) {
                Err(error) => Err(error),
                Ok(registries) => Ok(DocumentView { path, registries }),
            },
        },
    }
}

/// A list of sections of which a leading part cannot be read cannot be read.
pub proof fn lemma_image_entries_prefix(items: Seq<(Seq<char>, toml::Value)>, n: int)
    requires
        0 <= n <= items.len(),
        image_entries(items.take(n)) is Err,
    ensures
        image_entries(items) == image_entries(items.take(n)),
    decreases items.len(),
{
    if n == items.len() {
        assert(items.take(n) =~= items);
    } else {
        assert(items.drop_last().take(n) =~= items.take(n));
        lemma_image_entries_prefix(items.drop_last(), n);
    }
}

/// A list of sections of which a leading part cannot be read cannot be read.
pub proof fn lemma_registry_entries_prefix(items: Seq<(Seq<char>, toml::Value)>, n: int)
    requires
        0 <= n <= items.len(),
        registry_entries(items.take(n)) is Err,
    ensures
        registry_entries(items) == registry_entries(items.take(n)),
    decreases items.len(),
{
    if n == items.len() {
        assert(items.take(n) =~= items);
    } else {
        assert(items.drop_last().take(n) =~= items.take(n));
        lemma_registry_entries_prefix(items.drop_last(), n);
    }
}

fn read_text(table: &toml::Table, key: &str) -> (r: Result<Option<String>, ConfigError>)
    ensures
        match r {
            Ok(text) => text_at(*table, key@) == Ok::<Option<Seq<char>>, ConfigError>(
                opt_view(text),
            ),
            Err(error) => text_at(*table, key@) == Err::<Option<Seq<char>>, ConfigError>(error),
        },
{
    match table_get(table, key) {
        None => Ok(None),
        Some(value) => match value_as_str(value) {
            Some(text) => Ok(Some(text.to_owned())),
            None => Err(ConfigError::Malformed),
        },
    }
}

fn read_flag(table: &toml::Table, key: &str) -> (r: Result<Option<bool>, ConfigError>)
    ensures
        r == flag_at(*table, key@),
{
    match table_get(table, key) {
        None => Ok(None),
        Some(value) => match value_as_bool(value) {
            Some(flag) => Ok(Some(flag)),
            None => Err(ConfigError::Malformed),
        },
    }
}

fn read_table<'a>(table: &'a toml::Table, key: &str) -> (r: Result<&'a toml::Table, ConfigError>)
    ensures
        match r {
            Ok(inner) => table_at(*table, key@) == Ok::<toml::Table, ConfigError>(*inner),
            Err(error) => table_at(*table, key@) == Err::<toml::Table, ConfigError>(error),
        },
{
    match table_get(table, key) {
        None => Err(ConfigError::Malformed),
        Some(value) => match value_as_table(value) {
            Some(inner) => Ok(inner),
            None => Err(ConfigError::Malformed),
        },
    }
}

impl ImageEntry {
    /// Reads the image that the section `section` declares.
    fn read(section: &str, value: &toml::Value) -> (r: Result<ImageEntry, ConfigError>)
        ensures
            match r {
                Ok(image) => image_entry(section@, *value) == Ok::<ImageEntryView, ConfigError>(
                    image@,
                ),
                Err(error) => image_entry(section@, *value) == Err::<ImageEntryView, ConfigError>(
                    error,
                ),
            },
    {
        let table = match value_as_table(value) {
            Some(table) => table,
            None => {
                return Err(ConfigError::Malformed);
            },
        };
        let name = read_text(table, "name");
        let tag = read_text(table, "tag");
        let ignore = read_flag(table, "ignore");
        let (name, tag, ignore) = match (name, tag, ignore) {
            (Ok(name), Ok(tag), Ok(ignore)) => (name, tag, ignore),
            _ => {
                return Err(ConfigError::Malformed);
            },
        };
        let ignored = match ignore {
            Some(flag) => flag,
            None => false,
        };
        if ignored {
            return Ok(
                ImageEntry {
                    section: section.to_owned(),
                    name,
                    tag,
                    ignore,
                    source: None,
                    repository: None,
                    replace: None,
                },
            );
        }
        let source = read_text(table, "source");
        let repository = read_text(table, "repository");
        let replace = read_flag(table, "replace");
        match (source, repository, replace) {
            (Ok(source), Ok(repository), Ok(replace)) => Ok(
                ImageEntry {
                    section: section.to_owned(),
                    name,
                    tag,
                    ignore,
                    source,
                    repository,
                    replace,
                },
            ),
            _ => Err(ConfigError::Malformed),
        }
    }
}

/// Reads the images that the table `table` declares.
fn read_images(table: &toml::Table) -> (r: Result<Vec<ImageEntry>, ConfigError>)
    ensures
        match r {
            Ok(images) => image_entries(toml_items(*table)) == Ok::<
                Seq<ImageEntryView>,
                ConfigError,
            >(images@.map_values(|image: ImageEntry| image@)),
            Err(error) => image_entries(toml_items(*table)) == Err::<
                Seq<ImageEntryView>,
                ConfigError,
            >(error),
        },
{
    let items = table_items(table);
    let ghost all = toml_items(*table);
    let mut images: Vec<ImageEntry> = Vec::new();
    let mut i: usize = 0;
    assert(images@.map_values(|image: ImageEntry| image@) =~= Seq::empty());
    while i < items.len()
        invariant
            i <= items.len(),
            items@.len() == all.len(),
            all == toml_items(*table),
            forall|k: int|
                0 <= k < items@.len() ==> (#[trigger] items@[k]).0@ == all[k].0 && *items@[k].1
                    == all[k].1,
            image_entries(all.take(i as int)) == Ok::<Seq<ImageEntryView>, ConfigError>(
                images@.map_values(|image: ImageEntry| image@),
            ),
        decreases items.len() - i,
    {
        let item = &items[i];
        let ghost before = images@.map_values(|image: ImageEntry| image@);
        proof {
            assert(all.take(i + 1).drop_last() =~= all.take(i as int));
            assert(all.take(i + 1).last() == all[i as int]);
        }
        match ImageEntry::read(item.0.as_str(), item.1) {
            Ok(image) => {
                images.push(image);
                assert(images@.map_values(|image: ImageEntry| image@) =~= before.push(image@));
            },
            Err(error) => {
                proof {
                    lemma_image_entries_prefix(all, i + 1);
                }
                return Err(error);
            },
        }
        i += 1;
    }
    assert(all.take(i as int) =~= all);
    Ok(images)
}

impl RegistryEntry {
    /// Reads the registry that the section `name` declares.
    fn read(name: &str, value: &toml::Value) -> (r: Result<RegistryEntry, ConfigError>)
        ensures
            match r {
                Ok(registry) => registry_entry(name@, *value) == Ok::<
                    RegistryEntryView,
                    ConfigError,
                >(registry@),
                Err(error) => registry_entry(name@, *value) == Err::<
                    RegistryEntryView,
                    ConfigError,
                >(error),
            },
    {
        let table = match value_as_table(value) {
            Some(table) => table,
            None => {
                return Err(ConfigError::Malformed);
            },
        };
        let hostname = read_text(table, "hostname");
        let username = read_text(table, "username");
        let password = read_text(table, "password");
        let images = read_table(table, "images");
        match (hostname, username, password, images) {
            (Ok(hostname), Ok(username), Ok(password), Ok(images)) => {
                match read_images(images) {
                    Ok(images) => Ok(
                        RegistryEntry { name: name.to_owned(), hostname, username, password, images },
                    ),
                    Err(error) => Err(error),
                }
            },
            _ => Err(ConfigError::Malformed),
        }
    }
}

/// Reads the registries that the table `table` declares.
fn read_registries(table: &toml::Table) -> (r: Result<Vec<RegistryEntry>, ConfigError>)
    ensures
        match r {
            Ok(registries) => registry_entries(toml_items(*table)) == Ok::<
                Seq<RegistryEntryView>,
                ConfigError,
            >(registries@.map_values(|registry: RegistryEntry| registry@)),
            Err(error) => registry_entries(toml_items(*table)) == Err::<
                Seq<RegistryEntryView>,
                ConfigError,
            >(error),
        },
{
    let items = table_items(table);
    let ghost all = toml_items(*table);
    let mut registries: Vec<RegistryEntry> = Vec::new();
    let mut i: usize = 0;
    assert(registries@.map_values(|registry: RegistryEntry| registry@) =~= Seq::empty());
    while i < items.len()
        invariant
            i <= items.len(),
            items@.len() == all.len(),
            all == toml_items(*table),
            forall|k: int|
                0 <= k < items@.len() ==> (#[trigger] items@[k]).0@ == all[k].0 && *items@[k].1
                    == all[k].1,
            registry_entries(all.take(i as int)) == Ok::<Seq<RegistryEntryView>, ConfigError>(
                registries@.map_values(|registry: RegistryEntry| registry@),
            ),
        decreases items.len() - i,
    {
        let item = &items[i];
        let ghost before = registries@.map_values(|registry: RegistryEntry| registry@);
        proof {
            assert(all.take(i + 1).drop_last() =~= all.take(i as int));
            assert(all.take(i + 1).last() == all[i as int]);
        }
        match RegistryEntry::read(item.0.as_str(), item.1) {
            Ok(registry) => {
                registries.push(registry);
                assert(registries@.map_values(|registry: RegistryEntry| registry@) =~= before.push(
                    registry@,
                ));
            },
            Err(error) => {
                proof {
                    lemma_registry_entries_prefix(all, i + 1);
                }
                return Err(error);
            },
        }
        i += 1;
    }
    assert(all.take(i as int) =~= all);
    Ok(registries)
}

impl Document {
    /// Reads the configuration file at `path`, whose text is `content`.
    pub fn parse(path: &str, content: &str) -> (r: Result<Document, ConfigError>)
        ensures
            match r {
                Ok(read) => document(path@, content@) == Ok::<DocumentView, ConfigError>(read@),
                Err(error) => document(path@, content@) == Err::<DocumentView, ConfigError>(error),
            },
    {
        let root = match parse_table(content) {
            Ok(root) => root,
            Err(_) => {
                return Err(ConfigError::Syntax);
            },
        };
        let table = match read_table(&root, "registries") {
            Ok(table) => table,
            Err(error) => {
                return Err(error);
            },
        };
        match read_registries(table) {
            Ok(registries) => Ok(Document { path: path.to_owned(), registries }),
            Err(error) => Err(error),
        }
    }
}

} // verus!
