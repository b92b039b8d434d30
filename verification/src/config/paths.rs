//! The files and directories that a configuration is read from.
use vstd::prelude::*;

use crate::config::globs::portable;
use crate::config::resource::{debug_str, debug_text};
use crate::id::port_text;
use crate::text::{gather, gathered, push_text, same_text, texts, to_chars};

verus! {

/// A format of configuration files.
#[derive(Debug, Clone, Copy, PartialEq, Eq, Structural)]
pub enum Format {
    /// TOML.
    Toml,
    /// JSON.
    Json,
    /// YAML.
    Yaml,
}

/// The format of a file, where it is told apart from the file itself.
pub type FormatHint = Option<Format>;

/// A place to read configuration from.
#[derive(Debug)]
pub enum ConfigPath {
    /// A file.
    File(String, FormatHint),
    /// A directory.
    Dir(String),
}

/// A [`ConfigPath`], with texts as sequences of characters.
pub ghost enum PathModel {
    File(Seq<char>, FormatHint),
    Dir(Seq<char>),
}

impl View for ConfigPath {
    type V = PathModel;

    open spec fn view(&self) -> PathModel {
        match *self {
            ConfigPath::File(path, format) => PathModel::File(path@, format),
            ConfigPath::Dir(path) => PathModel::Dir(path@),
        }
    }
}

impl Clone for ConfigPath {
    fn clone(&self) -> (copy: Self)
        ensures
            copy@ == self@,
    {
        match self {
            ConfigPath::File(path, format) => ConfigPath::File(path.clone(), *format),
            ConfigPath::Dir(path) => ConfigPath::Dir(path.clone()),
        }
    }
}

impl ConfigPath {
    /// The path, whatever it leads to.
    pub fn as_path(&self) -> (path: &str)
        ensures
            path@ == path_text(self@),
    {
        match self {
            ConfigPath::File(path, _) => path.as_str(),
            ConfigPath::Dir(path) => path.as_str(),
        }
    }
}

/// The path, whatever it leads to.
pub open spec fn path_text(path: PathModel) -> Seq<char> {
    match path {
        PathModel::File(text, _) => text,
        PathModel::Dir(text) => text,
    }
}

/// What a list of places stands for.
pub open spec fn path_models(paths: Seq<ConfigPath>) -> Seq<PathModel> {
    Seq::new(paths.len(), |i: int| paths[i]@)
}

/// Whether a path has the same parts on every machine: it has no character that
/// separates directories or marks a drive on some machines only, and it does
/// not start as the name of a share does.
pub open spec fn same_parts_everywhere(path: Seq<char>) -> bool {
    &&& portable(path)
    &&& !path.contains(':')
    &&& !(path.len() >= 2 && path[0] == '/' && path[1] == '/')
}

/// Whether a path is just the name of a file.
pub open spec fn is_bare_name(path: Seq<char>) -> bool {
    &&& path.len() > 0
    &&& !path.contains('/')
    &&& same_parts_everywhere(path)
    &&& path != seq!['.']
    &&& path != seq!['.', '.']
}

/// The place of the last dot in a name, or less than nought.
pub open spec fn last_dot(name: Seq<char>) -> int
    decreases name.len(),
{
    if name.len() == 0 {
        -1
    } else if name.last() == '.' {
        name.len() - 1
    } else {
        last_dot(name.drop_last())
    }
}

/// A name without what stands behind its last dot. A dot at the start does not
/// count.
pub open spec fn bare_stem(name: Seq<char>) -> Seq<char> {
    if last_dot(name) <= 0 {
        name
    } else {
        name.take(last_dot(name))
    }
}

/// What stands behind the last dot of a name. A dot at the start does not
/// count.
pub open spec fn bare_extension(name: Seq<char>) -> Option<Seq<char>> {
    if last_dot(name) <= 0 {
        None
    } else {
        Some(name.skip(last_dot(name) + 1))
    }
}

/// The name of the file that a path leads to, without its extension.
pub uninterp spec fn file_stem_of(path: Seq<char>) -> Option<Seq<char>>;

/// The extension of the file that a path leads to.
pub uninterp spec fn extension_of(path: Seq<char>) -> Option<Seq<char>>;

/// `std::path::Path::file_stem`: the name of the file without its extension.
///
/// Of a path with `\` or `:`, or with `//` at its start, nothing is said, since
/// on some machines these separate directories or mark a drive or a share.
#[verifier::external_body]
fn file_stem(path: &str) -> (stem: Option<String>)
    ensures
        same_parts_everywhere(path@) ==> port_text(stem) == file_stem_of(path@),
        is_bare_name(path@) ==> port_text(stem) == Some(bare_stem(path@)),
{
    std::path::Path::new(path).file_stem().and_then(|name| name.to_str()).map(str::to_owned)
}

/// `std::path::Path::extension`: what stands behind the last dot in the name of
/// the file.
///
/// Of a path with `\` or `:`, or with `//` at its start, nothing is said, since
/// on some machines these separate directories or mark a drive or a share.
#[verifier::external_body]
fn extension(path: &str) -> (found: Option<String>)
    ensures
        same_parts_everywhere(path@) ==> port_text(found) == extension_of(path@),
        is_bare_name(path@) ==> port_text(found) == bare_extension(path@),
{
    std::path::Path::new(path).extension().and_then(|name| name.to_str()).map(str::to_owned)
}

/// The format that an extension stands for.
pub open spec fn format_of(extension: Option<Seq<char>>) -> Option<Format> {
    match extension {
        None => None,
        Some(text) => if text == "yaml"@ || text == "yml"@ {
            Some(Format::Yaml)
        } else if text == "json"@ {
            Some(Format::Json)
        } else if text == "toml"@ {
            Some(Format::Toml)
        } else {
            None
        },
    }
}

/// The format that a file is read in: the one that is told, else the one that
/// the extension stands for, else YAML.
pub open spec fn chosen_format(hint: FormatHint, extension: Option<Seq<char>>) -> Format {
    match (hint, format_of(extension)) {
        (Some(format), _) => format,
        (None, Some(format)) => format,
        (None, None) => Format::Yaml,
    }
}

impl Format {
    /// The format that an extension stands for.
    pub fn from_extension(extension: &Option<String>) -> (format: Option<Format>)
        ensures
            format == format_of(port_text(*extension)),
    {
        match extension {
            None => None,
            Some(text) => {
                let text = text.as_str();
                if same_text(text, "yaml") || same_text(text, "yml") {
                    Some(Format::Yaml)
                } else if same_text(text, "json") {
                    Some(Format::Json)
                } else if same_text(text, "toml") {
                    Some(Format::Toml)
                } else {
                    None
                }
            },
        }
    }

    /// The format that a file is read in, by its extension.
    pub fn pick(hint: FormatHint, extension: &Option<String>) -> (format: Format)
        ensures
            format == chosen_format(hint, port_text(*extension)),
    {
        match hint {
            Some(format) => format,
            None => match Format::from_extension(extension) {
                Some(format) => format,
                None => Format::Yaml,
            },
        }
    }

    /// The format that the file at a path is read in.
    pub fn for_path(path: &str, hint: FormatHint) -> (format: Format)
        ensures
            same_parts_everywhere(path@) ==> format == chosen_format(hint, extension_of(path@)),
            is_bare_name(path@) ==> format == chosen_format(hint, bare_extension(path@)),
            hint is Some ==> format == hint->0,
    {
        Format::pick(hint, &extension(path))
    }
}

/// The name of a component in a file of its own: the name of the file without
/// its extension.
pub fn component_name(path: &str) -> (result: Result<String, Vec<String>>)
    ensures
        same_parts_everywhere(path@) ==> names_component(path@, file_stem_of(path@), result),
        is_bare_name(path@) ==> result is Ok && result->Ok_0@ == bare_stem(path@),
        result is Err ==> names_component(path@, None, result),
{
    component_name_from(path, file_stem(path))
}

/// Whether a result gives the stem as a name, or else a message on the path.
pub open spec fn names_component(
    path: Seq<char>,
    stem: Option<Seq<char>>,
    result: Result<String, Vec<String>>,
) -> bool {
    match (stem, result) {
        (Some(name), Ok(found)) => found@ == name,
        (None, Err(errors)) => texts(errors@) == seq![
            "Couldn't get component name for file: "@ + debug_text(path),
        ],
        _ => false,
    }
}

/// The name of a component in a file of its own, by the stem of its path.
pub fn component_name_from(path: &str, stem: Option<String>) -> (result: Result<
    String,
    Vec<String>,
>)
    ensures
        names_component(path@, port_text(stem), result),
{
    match stem {
        Some(name) => Ok(name),
        None => {
            let mut message = "Couldn't get component name for file: ".to_owned();
            message.append(debug_str(path).as_str());
            let mut errors: Vec<String> = Vec::new();
            assert(texts(errors@) =~= Seq::empty());
            push_text(&mut errors, message);
            assert(texts(errors@) =~= seq![
                "Couldn't get component name for file: "@ + debug_text(path@),
            ]);
            Err(errors)
        },
    }
}

/// The paths of several lists, each with the format of its list.
pub open spec fn merged_paths(lists: Seq<(Vec<String>, FormatHint)>) -> Seq<(Seq<char>, FormatHint)> {
    gather(
        lists.len(),
        |i: int| Seq::new(lists[i].0@.len(), |j: int| (lists[i].0@[j]@, lists[i].1)),
    )
}

/// What a list of paths with formats stands for.
pub open spec fn hinted_models(paths: Seq<(String, FormatHint)>) -> Seq<(Seq<char>, FormatHint)> {
    Seq::new(paths.len(), |i: int| (paths[i].0@, paths[i].1))
}

/// Merges the paths that come from different flags, each with its format, into
/// one list.
pub fn merge_path_lists(path_lists: Vec<(Vec<String>, FormatHint)>) -> (merged: Vec<(String, FormatHint)>)
    ensures
        hinted_models(merged@) == merged_paths(path_lists@),
{
    let ghost lists = path_lists@;
    let ghost f = |i: int|
        Seq::new(lists[i].0@.len(), |j: int| (lists[i].0@[j]@, lists[i].1));
    let mut merged: Vec<(String, FormatHint)> = Vec::new();
    assert(hinted_models(merged@) =~= gather(0, f));
    let mut i: usize = 0;
    while i < path_lists.len()
        invariant
            i <= path_lists.len(),
            lists == path_lists@,
            f == (|i: int| Seq::new(lists[i].0@.len(), |j: int| (lists[i].0@[j]@, lists[i].1))),
            hinted_models(merged@) == gather(i as nat, f),
        decreases path_lists.len() - i,
    {
        let ghost before = hinted_models(merged@);
        let paths = &path_lists[i].0;
        let format = path_lists[i].1;
        let mut j: usize = 0;
        assert(hinted_models(merged@) =~= before + f(i as int).take(0));
        while j < paths.len()
            invariant
                j <= paths.len(),
                paths == lists[i as int].0,
                format == lists[i as int].1,
                f == (|i: int|
                    Seq::new(lists[i].0@.len(), |j: int| (lists[i].0@[j]@, lists[i].1))),
                hinted_models(merged@) == before + f(i as int).take(j as int),
            decreases paths.len() - j,
        {
            let ghost held = hinted_models(merged@);
            merged.push((paths[j].clone(), format));
            assert(hinted_models(merged@) =~= held.push(f(i as int)[j as int]));
            assert(hinted_models(merged@) =~= before + f(i as int).take(j + 1));
            j = j + 1;
        }
        assert(f(i as int).take(j as int) =~= f(i as int));
        i = i + 1;
    }
    merged
}

/// The path of the configuration file, where none is given: on Windows it lies
/// in the directory for programs, which is told there.
pub open spec fn default_text(program_files: Option<Seq<char>>) -> Seq<char> {
    match program_files {
        Some(directory) => directory + "\\Vector\\config\\vector.yaml"@,
        None => "/etc/vector/vector.yaml"@,
    }
}

/// The path of the configuration file, where none is given.
pub fn default_path(program_files: &Option<String>) -> (path: String)
    ensures
        path@ == default_text(port_text(*program_files)),
{
    match program_files {
        Some(directory) => {
            let mut path = directory.clone();
            path.append("\\Vector\\config\\vector.yaml");
            path
        },
        None => "/etc/vector/vector.yaml".to_owned(),
    }
}

/// The places to read from, where none is given.
pub fn default_config_paths(program_files: &Option<String>) -> (paths: Vec<ConfigPath>)
    ensures
        path_models(paths@) == default_models(port_text(*program_files)),
{
    let mut paths: Vec<ConfigPath> = Vec::new();
    paths.push(ConfigPath::File(default_path(program_files), Some(Format::Yaml)));
    assert(path_models(paths@) =~= default_models(port_text(*program_files)));
    paths
}

/// The places to read from, where none is given.
pub open spec fn default_models(program_files: Option<Seq<char>>) -> Seq<PathModel> {
    seq![PathModel::File(default_text(program_files), Some(Format::Yaml))]
}

/// The places whose patterns are looked for: those that are given, or else the
/// default.
pub open spec fn starting_models(
    paths: Seq<PathModel>,
    program_files: Option<Seq<char>>,
) -> Seq<PathModel> {
    if paths.len() == 0 {
        default_models(program_files)
    } else {
        paths
    }
}

/// The places whose patterns are looked for.
pub fn starting_paths(config_paths: &Vec<ConfigPath>, program_files: &Option<String>) -> (paths: Vec<
    ConfigPath,
>)
    ensures
        path_models(paths@) == starting_models(
            path_models(config_paths@),
            port_text(*program_files),
        ),
{
    if config_paths.len() == 0 {
        return default_config_paths(program_files);
    }
    let mut paths: Vec<ConfigPath> = Vec::new();
    let mut i: usize = 0;
    assert(path_models(paths@) =~= path_models(config_paths@).take(0));
    while i < config_paths.len()
        invariant
            i <= config_paths.len(),
            path_models(paths@) == path_models(config_paths@).take(i as int),
        decreases config_paths.len() - i,
    {
        let ghost held = path_models(paths@);
        paths.push(config_paths[i].clone());
        assert(path_models(paths@) =~= held.push(config_paths@[i as int]@));
        assert(path_models(paths@) =~= path_models(config_paths@).take(i + 1));
        i = i + 1;
    }
    assert(path_models(config_paths@).take(i as int) =~= path_models(config_paths@));
    paths
}

/// The place of the first `/` in a text, or its length where there is none.
pub open spec fn first_slash(text: Seq<char>) -> int
    decreases text.len(),
{
    if text.len() == 0 || text[0] == '/' {
        0
    } else {
        1 + first_slash(text.skip(1))
    }
}

/// The numbers by which a part of a path is put in order. The root comes first,
/// then the present directory, then the one above it, then names.
///
/// The present directory counts at the start of a path only, and an empty part
/// only there, where it stands for the root.
pub open spec fn part_key(part: Seq<char>, at_start: bool) -> Seq<int> {
    if part.len() == 0 {
        if at_start {
            seq![1int]
        } else {
            Seq::empty()
        }
    } else if part == seq!['.'] {
        if at_start {
            seq![2int]
        } else {
            Seq::empty()
        }
    } else if part == seq!['.', '.'] {
        seq![3int]
    } else {
        seq![4int] + part.map_values(|c: char| c as int + 1) + seq![0int]
    }
}

/// The numbers by which a path is put in order: those of its parts.
pub open spec fn parts_key(text: Seq<char>, at_start: bool) -> Seq<int>
    decreases text.len(),
{
    if text.len() == 0 {
        Seq::empty()
    } else {
        let end = first_slash(text);
        if 0 <= end < text.len() {
            part_key(text.take(end), at_start) + parts_key(text.skip(end + 1), false)
        } else {
            part_key(text, at_start)
        }
    }
}

/// The number by which a format is put in order.
pub open spec fn format_rank(format: FormatHint) -> int {
    match format {
        None => 0,
        Some(Format::Toml) => 1,
        Some(Format::Json) => 2,
        Some(Format::Yaml) => 3,
    }
}

/// The numbers by which a place is put in order: files come before directories,
/// then it goes by the parts of the path, then by the format.
pub open spec fn path_key(path: PathModel) -> Seq<int> {
    match path {
        PathModel::File(text, format) => seq![0int] + parts_key(text, true) + seq![
            0int,
            format_rank(format),
        ],
        PathModel::Dir(text) => seq![1int] + parts_key(text, true) + seq![0int, 0int],
    }
}

/// Whether one list of numbers comes before another.
pub open spec fn lex_less(a: Seq<int>, b: Seq<int>) -> bool
    decreases a.len(),
{
    if b.len() == 0 {
        false
    } else if a.len() == 0 {
        true
    } else if a[0] != b[0] {
        a[0] < b[0]
    } else {
        lex_less(a.skip(1), b.skip(1))
    }
}

/// Of two different lists of numbers, one comes before the other.
pub proof fn lex_total(a: Seq<int>, b: Seq<int>)
    requires
        a != b,
    ensures
        lex_less(a, b) || lex_less(b, a),
    decreases a.len(),
{
    if a.len() > 0 && b.len() > 0 && a[0] == b[0] {
        if a.skip(1) == b.skip(1) {
            assert(a =~= seq![a[0]] + a.skip(1));
            assert(b =~= seq![b[0]] + b.skip(1));
        }
        lex_total(a.skip(1), b.skip(1));
    } else if a.len() == 0 && b.len() == 0 {
        assert(a =~= b);
    }
}

/// What comes before something comes before all that this comes before.
pub proof fn lex_transitive(a: Seq<int>, b: Seq<int>, c: Seq<int>)
    requires
        lex_less(a, b),
        lex_less(b, c),
    ensures
        lex_less(a, c),
    decreases a.len(),
{
    if a.len() > 0 && a[0] == b[0] && b[0] == c[0] {
        lex_transitive(a.skip(1), b.skip(1), c.skip(1));
    }
}

/// Nothing comes before itself.
pub proof fn lex_irreflexive(a: Seq<int>)
    ensures
        !lex_less(a, a),
    decreases a.len(),
{
    if a.len() > 0 {
        lex_irreflexive(a.skip(1));
    }
}

/// Whether each place comes before all that follow it.
pub open spec fn ascending(paths: Seq<PathModel>) -> bool {
    forall|i: int, j: int|
        0 <= i < j < paths.len() ==> lex_less(
            path_key(#[trigger] paths[i]),
            path_key(#[trigger] paths[j]),
        )
}

/// What a list of numbers stands for.
spec fn key_numbers(key: Seq<u32>) -> Seq<int> {
    key.map_values(|number: u32| number as int)
}

/// Decides whether a part of a text consists of dots alone, this many of them.
fn is_dots(chars: &Vec<char>, start: usize, end: usize, count: usize) -> (dots: bool)
    requires
        start <= end <= chars@.len(),
    ensures
        dots == (chars@.subrange(start as int, end as int) == Seq::new(count as nat, |i: int| '.')),
{
    let ghost part = chars@.subrange(start as int, end as int);
    let ghost wanted = Seq::new(count as nat, |i: int| '.');
    if end - start != count {
        assert(part.len() != wanted.len());
        return false;
    }
    let mut i: usize = start;
    while i < end
        invariant
            start <= i <= end <= chars@.len(),
            end - start == count,
            part == chars@.subrange(start as int, end as int),
            wanted == Seq::new(count as nat, |i: int| '.'),
            forall|j: int| start <= j < i ==> chars@[j] == '.',
        decreases end - i,
    {
        if chars[i] != '.' {
            assert(part[i - start] != wanted[i - start]);
            return false;
        }
        i = i + 1;
    }
    assert(part =~= wanted);
    true
}

/// The number by which a character of a name is put in order.
fn code_of(c: char) -> (code: u32)
    ensures
        code == c as int + 1,
{
    c as u32 + 1
}

/// Adds the numbers of a part of a path to a list.
fn push_part(key: &mut Vec<u32>, chars: &Vec<char>, start: usize, end: usize)
    requires
        start <= end <= chars@.len(),
    ensures
        key_numbers(final(key)@) == key_numbers(old(key)@) + part_key(
            chars@.subrange(start as int, end as int),
            start == 0,
        ),
{
    let ghost part = chars@.subrange(start as int, end as int);
    let ghost before = key_numbers(key@);
    proof {
        assert(Seq::new(1, |i: int| '.') =~= seq!['.']);
        assert(Seq::new(2, |i: int| '.') =~= seq!['.', '.']);
    }
    if start == end {
        if start == 0 {
            key.push(1);
        }
    } else if is_dots(chars, start, end, 1) {
        if start == 0 {
            key.push(2);
        }
    } else if is_dots(chars, start, end, 2) {
        key.push(3);
    } else {
        key.push(4);
        let ghost codes = part.map_values(|c: char| c as int + 1);
        let ghost opened = before + seq![4int];
        let mut i: usize = start;
        assert(key_numbers(key@) =~= opened + codes.take(0));
        while i < end
            invariant
                start <= i <= end <= chars@.len(),
                part == chars@.subrange(start as int, end as int),
                codes == part.map_values(|c: char| c as int + 1),
                key_numbers(key@) == opened + codes.take(i - start),
            decreases end - i,
        {
            let ghost held = key_numbers(key@);
            key.push(code_of(chars[i]));
            assert(part[i - start] == chars@[i as int]);
            assert(key_numbers(key@) =~= held.push(codes[i - start]));
            assert(key_numbers(key@) =~= opened + codes.take(i - start + 1));
            i = i + 1;
        }
        assert(codes.take(end - start) =~= codes);
        key.push(0);
        assert(key_numbers(key@) =~= opened + codes + seq![0int]);
    }
    assert(key_numbers(key@) =~= before + part_key(part, start == 0));
}

/// Adds the numbers of all parts of a path to a list.
fn push_parts(key: &mut Vec<u32>, chars: &Vec<char>)
    ensures
        key_numbers(final(key)@) == key_numbers(old(key)@) + parts_key(chars@, true),
{
    let ghost wanted = key_numbers(key@) + parts_key(chars@, true);
    let mut start: usize = 0;
    assert(chars@.skip(0) =~= chars@);
    while start < chars.len()
        invariant
            start <= chars@.len(),
            wanted == key_numbers(key@) + parts_key(chars@.skip(start as int), start == 0),
        decreases chars@.len() - start,
    {
        let ghost rest = chars@.skip(start as int);
        let mut end: usize = start;
        assert(rest.skip(0) =~= rest);
        while end < chars.len() && chars[end] != '/'
            invariant
                start <= end <= chars@.len(),
                rest == chars@.skip(start as int),
                first_slash(rest) == end - start + first_slash(rest.skip(end - start)),
            decreases chars@.len() - end,
        {
            assert(rest.skip(end - start)[0] == chars@[end as int]);
            assert(rest.skip(end - start).skip(1) =~= rest.skip(end - start + 1));
            end = end + 1;
        }
        proof {
            if end < chars@.len() {
                assert(rest.skip(end - start)[0] == chars@[end as int]);
            }
            assert(first_slash(rest) == end - start);
            assert(chars@.subrange(start as int, end as int) =~= rest.take(end - start));
        }
        let ghost held = key_numbers(key@);
        let ghost part = part_key(chars@.subrange(start as int, end as int), start == 0);
        push_part(key, chars, start, end);
        if end < chars.len() {
            proof {
                assert(rest.skip(end - start + 1) =~= chars@.skip(end + 1));
                assert(wanted =~= held + part + parts_key(chars@.skip(end + 1), false));
            }
            start = end + 1;
        } else {
            proof {
                assert(rest.take(end - start) =~= rest);
                assert(wanted =~= held + part + parts_key(chars@.skip(end as int), false));
            }
            start = end;
        }
    }
    assert(key_numbers(key@) =~= wanted);
}

/// The numbers by which a place is put in order.
fn key_of(path: &ConfigPath) -> (key: Vec<u32>)
    ensures
        key_numbers(key@) == path_key(path@),
{
    let mut key: Vec<u32> = Vec::new();
    let format_number: u32 = match path {
        ConfigPath::File(_, None) => 0,
        ConfigPath::File(_, Some(Format::Toml)) => 1,
        ConfigPath::File(_, Some(Format::Json)) => 2,
        ConfigPath::File(_, Some(Format::Yaml)) => 3,
        ConfigPath::Dir(_) => 0,
    };
    let kind: u32 = match path {
        ConfigPath::File(_, _) => 0,
        ConfigPath::Dir(_) => 1,
    };
    key.push(kind);
    assert(key_numbers(key@) =~= seq![kind as int]);
    let chars = to_chars(path.as_path());
    push_parts(&mut key, &chars);
    let ghost held = key_numbers(key@);
    key.push(0);
    key.push(format_number);
    assert(key_numbers(key@) =~= held + seq![0int, format_number as int]);
    key
}

/// Decides whether one list of numbers comes before another.
fn comes_before(a: &Vec<u32>, b: &Vec<u32>) -> (before: bool)
    ensures
        before == lex_less(key_numbers(a@), key_numbers(b@)),
{
    let ghost ka = key_numbers(a@);
    let ghost kb = key_numbers(b@);
    let mut i: usize = 0;
    assert(ka.skip(0) =~= ka);
    assert(kb.skip(0) =~= kb);
    while i < a.len() && i < b.len()
        invariant
            i <= a.len(),
            i <= b.len(),
            ka == key_numbers(a@),
            kb == key_numbers(b@),
            lex_less(ka, kb) == lex_less(ka.skip(i as int), kb.skip(i as int)),
        decreases a.len() - i,
    {
        assert(ka.skip(i as int)[0] == a@[i as int] as int);
        assert(kb.skip(i as int)[0] == b@[i as int] as int);
        if a[i] != b[i] {
            return a[i] < b[i];
        }
        assert(ka.skip(i as int).skip(1) =~= ka.skip(i + 1));
        assert(kb.skip(i as int).skip(1) =~= kb.skip(i + 1));
        i = i + 1;
    }
    i < b.len()
}

/// Whether a list has a place with these numbers.
spec fn has_key(paths: Seq<PathModel>, key: Seq<int>) -> bool {
    exists|i: int| 0 <= i < paths.len() && path_key(#[trigger] paths[i]) == key
}

/// Puts a place where it belongs in a list, unless an equal one is there already.
fn insert_path(paths: &mut Vec<ConfigPath>, path: ConfigPath)
    requires
        ascending(path_models(old(paths)@)),
    ensures
        ascending(path_models(final(paths)@)),
        forall|model: PathModel| #[trigger]
            path_models(final(paths)@).contains(model) <==> path_models(old(paths)@).contains(model)
                || (model == path@ && !has_key(path_models(old(paths)@), path_key(path@))),
        forall|key: Seq<int>| #[trigger]
            has_key(path_models(final(paths)@), key) <==> has_key(path_models(old(paths)@), key) || key
                == path_key(path@),
{
    let key = key_of(&path);
    let ghost before = path_models(paths@);
    let ghost wanted = path_key(path@);
    let mut place: usize = 0;
    while place < paths.len() && comes_before(&key_of(&paths[place]), &key)
        invariant
            place <= paths.len(),
            before == path_models(paths@),
            key_numbers(key@) == wanted,
            forall|i: int| 0 <= i < place ==> lex_less(path_key(#[trigger] before[i]), wanted),
        decreases paths.len() - place,
    {
        assert(before[place as int] == paths@[place as int]@);
        place = place + 1;
    }
    if place < paths.len() {
        assert(before[place as int] == paths@[place as int]@);
        assert(!lex_less(path_key(before[place as int]), wanted));
        if !comes_before(&key, &key_of(&paths[place])) {
            proof {
                if path_key(before[place as int]) != wanted {
                    lex_total(path_key(before[place as int]), wanted);
                }
                assert(has_key(before, wanted));
            }
            return;
        }
    }
    proof {
        assert forall|i: int| 0 <= i < before.len() implies path_key(#[trigger] before[i]) != wanted by {
            lex_irreflexive(wanted);
            if i > place {
                lex_transitive(wanted, path_key(before[place as int]), path_key(before[i]));
            }
        }
        assert(!has_key(before, wanted));
    }
    paths.insert(place, path);
    proof {
        let after = path_models(paths@);
        assert(after =~= before.insert(place as int, path@));
        assert forall|key: Seq<int>| #[trigger] has_key(after, key) <==> has_key(before, key) || key
            == wanted by {
            if has_key(after, key) {
                let i = choose|i: int| 0 <= i < after.len() && path_key(#[trigger] after[i]) == key;
                if i < place {
                    assert(path_key(before[i]) == key);
                } else if i > place {
                    assert(path_key(before[i - 1]) == key);
                }
            }
            if has_key(before, key) {
                let i = choose|i: int| 0 <= i < before.len() && path_key(#[trigger] before[i]) == key;
                if i < place {
                    assert(path_key(after[i]) == key);
                } else {
                    assert(path_key(after[i + 1]) == key);
                }
            }
            assert(path_key(after[place as int]) == wanted);
        }
        assert forall|i: int, j: int| 0 <= i < j < after.len() implies lex_less(
            path_key(#[trigger] after[i]),
            path_key(#[trigger] after[j]),
        ) by {
            if j < place {
                assert(after[i] == before[i] && after[j] == before[j]);
            } else if j == place {
                assert(after[i] == before[i]);
            } else if i < place {
                assert(after[i] == before[i] && after[j] == before[j - 1]);
            } else if i > place {
                assert(after[i] == before[i - 1] && after[j] == before[j - 1]);
            } else {
                assert(after[j] == before[j - 1]);
                if j - 1 > place {
                    lex_transitive(
                        wanted,
                        path_key(before[place as int]),
                        path_key(before[j - 1]),
                    );
                }
            }
        }
        assert forall|model: PathModel| #[trigger] after.contains(model) <==> before.contains(model)
            || model == path@ by {
            if after.contains(model) {
                let i = choose|i: int| 0 <= i < after.len() && after[i] == model;
                if i < place {
                    assert(before[i] == model);
                } else if i > place {
                    assert(before[i - 1] == model);
                }
            }
            if before.contains(model) {
                let i = choose|i: int| 0 <= i < before.len() && before[i] == model;
                if i < place {
                    assert(after[i] == model);
                } else {
                    assert(after[i + 1] == model);
                }
            }
            assert(after[place as int] == path@);
        }
    }
}

/// A place of the same kind with another path.
pub open spec fn with_path(path: PathModel, text: Seq<char>) -> PathModel {
    match path {
        PathModel::File(_, format) => PathModel::File(text, format),
        PathModel::Dir(_) => PathModel::Dir(text),
    }
}

/// The places that the patterns of a list match.
pub open spec fn matched_models(
    starting: Seq<PathModel>,
    matches: Seq<Option<Vec<String>>>,
) -> Seq<PathModel> {
    gather(
        starting.len(),
        |i: int| Seq::new(matches[i]->0@.len(), |j: int| with_path(starting[i], matches[i]->0@[j]@)),
    )
}

/// Whether a place is in a list, with none before it that is equal to it.
pub open spec fn first_of_its_kind(paths: Seq<PathModel>, model: PathModel) -> bool {
    exists|k: int|
        0 <= k < paths.len() && #[trigger] paths[k] == model && forall|j: int|
            0 <= j < k ==> path_key(#[trigger] paths[j]) != path_key(model)
}

/// A further place is the first of its kind where no earlier one is equal to it.
proof fn one_more_place(paths: Seq<PathModel>, path: PathModel)
    ensures
        forall|model: PathModel| #[trigger]
            first_of_its_kind(paths.push(path), model) <==> first_of_its_kind(paths, model) || (model
                == path && !has_key(paths, path_key(path))),
        forall|key: Seq<int>| #[trigger]
            has_key(paths.push(path), key) <==> has_key(paths, key) || key == path_key(path),
{
    let next = paths.push(path);
    let len = paths.len() as int;
    assert forall|model: PathModel| #[trigger] first_of_its_kind(next, model) <==> first_of_its_kind(
        paths,
        model,
    ) || (model == path && !has_key(paths, path_key(path))) by {
        if first_of_its_kind(next, model) {
            let k = choose|k: int|
                0 <= k < next.len() && #[trigger] next[k] == model && forall|j: int|
                    0 <= j < k ==> path_key(#[trigger] next[j]) != path_key(model);
            if k < len {
                assert(paths[k] == model);
                assert forall|j: int| 0 <= j < k implies path_key(#[trigger] paths[j]) != path_key(
                    model,
                ) by {
                    assert(next[j] == paths[j]);
                }
            } else {
                assert forall|j: int| 0 <= j < len implies path_key(#[trigger] paths[j]) != path_key(
                    model,
                ) by {
                    assert(next[j] == paths[j]);
                }
            }
        }
        if first_of_its_kind(paths, model) {
            let k = choose|k: int|
                0 <= k < paths.len() && #[trigger] paths[k] == model && forall|j: int|
                    0 <= j < k ==> path_key(#[trigger] paths[j]) != path_key(model);
            assert(next[k] == model);
        }
        if model == path && !has_key(paths, path_key(path)) {
            assert(next[len] == model);
        }
    }
    assert forall|key: Seq<int>| #[trigger] has_key(next, key) <==> has_key(paths, key) || key
        == path_key(path) by {
        if has_key(next, key) {
            let i = choose|i: int| 0 <= i < next.len() && path_key(#[trigger] next[i]) == key;
            if i < len {
                assert(path_key(paths[i]) == key);
            }
        }
        if has_key(paths, key) {
            let i = choose|i: int| 0 <= i < paths.len() && path_key(#[trigger] paths[i]) == key;
            assert(path_key(next[i]) == key);
        }
        assert(path_key(next[len]) == path_key(path));
    }
}

/// Whether every pattern is one and matches something.
pub open spec fn all_match(matches: Seq<Option<Vec<String>>>) -> bool {
    forall|i: int|
        0 <= i < matches.len() ==> (#[trigger] matches[i]) is Some && matches[i]->0@.len() > 0
}

/// Puts the places that patterns match into one list, in order and each once. Of
/// places that differ in no part of their paths the first stays.
///
/// For each pattern `matches` holds what it matches, or `None` where it is no
/// pattern. Where a pattern is none or matches nothing, there is no list.
pub fn process_paths(starting: &Vec<ConfigPath>, matches: &Vec<Option<Vec<String>>>) -> (result: Option<
    Vec<ConfigPath>,
>)
    requires
        matches@.len() == starting@.len(),
    ensures
        match result {
            Some(paths) => {
                &&& all_match(matches@)
                &&& ascending(path_models(paths@))
                &&& forall|model: PathModel| #[trigger]
                    path_models(paths@).contains(model) <==> first_of_its_kind(
                        matched_models(path_models(starting@), matches@),
                        model,
                    )
            },
            None => !all_match(matches@),
        },
{
    let ghost models = path_models(starting@);
    let ghost f = |i: int|
        Seq::new(matches@[i]->0@.len(), |j: int| with_path(models[i], matches@[i]->0@[j]@));
    let mut paths: Vec<ConfigPath> = Vec::new();
    let mut i: usize = 0;
    while i < starting.len()
        invariant
            i <= starting.len(),
            matches@.len() == starting@.len(),
            models == path_models(starting@),
            f == (|i: int|
                Seq::new(
                    matches@[i]->0@.len(),
                    |j: int| with_path(models[i], matches@[i]->0@[j]@),
                )),
            forall|j: int|
                0 <= j < i ==> (#[trigger] matches@[j]) is Some && matches@[j]->0@.len() > 0,
            ascending(path_models(paths@)),
            forall|model: PathModel| #[trigger]
                path_models(paths@).contains(model) <==> first_of_its_kind(
                    gather(i as nat, f),
                    model,
                ),
            forall|key: Seq<int>| #[trigger]
                has_key(path_models(paths@), key) <==> has_key(gather(i as nat, f), key),
        decreases starting.len() - i,
    {
        let found = match &matches[i] {
            Some(found) => found,
            None => {
                assert(matches@[i as int] is None);
                return None;
            },
        };
        if found.len() == 0 {
            assert(matches@[i as int]->0@.len() == 0);
            return None;
        }
        let ghost before = gather(i as nat, f);
        let ghost added = f(i as int);
        let mut j: usize = 0;
        assert(before + added.take(0) =~= before);
        while j < found.len()
            invariant
                j <= found.len(),
                i < starting.len(),
                models == path_models(starting@),
                matches@[i as int] is Some,
                *found == matches@[i as int]->0,
                added == Seq::new(
                    found@.len(),
                    |j: int| with_path(models[i as int], found@[j]@),
                ),
                ascending(path_models(paths@)),
                forall|model: PathModel| #[trigger]
                    path_models(paths@).contains(model) <==> first_of_its_kind(
                        before + added.take(j as int),
                        model,
                    ),
                forall|key: Seq<int>| #[trigger]
                    has_key(path_models(paths@), key) <==> has_key(
                        before + added.take(j as int),
                        key,
                    ),
            decreases found.len() - j,
        {
            let path = match &starting[i] {
                ConfigPath::File(_, format) => ConfigPath::File(found[j].clone(), *format),
                ConfigPath::Dir(_) => ConfigPath::Dir(found[j].clone()),
            };
            assert(path@ == added[j as int]);
            let ghost held = before + added.take(j as int);
            let ghost next = before + added.take(j + 1);
            insert_path(&mut paths, path);
            proof {
                assert(next =~= held.push(path@));
                one_more_place(held, path@);
            }
            j = j + 1;
        }
        assert(added.take(j as int) =~= added);
        i = i + 1;
    }
    Some(paths)
}

/// The last dot of a name is where nothing behind it is a dot.
proof fn last_dot_is(stem: Seq<char>, ending: Seq<char>)
    requires
        !ending.contains('.'),
    ensures
        last_dot(stem + seq!['.'] + ending) == stem.len(),
    decreases ending.len(),
{
    let name = stem + seq!['.'] + ending;
    if ending.len() > 0 {
        let rest = ending.drop_last();
        assert forall|c: char| rest.contains(c) implies ending.contains(c) by {
            let i = choose|i: int| 0 <= i < rest.len() && rest[i] == c;
            assert(ending[i] == c);
        }
        last_dot_is(stem, rest);
        assert(name.drop_last() =~= stem + seq!['.'] + rest);
        assert(name.last() == ending.last());
        assert(ending.contains(ending.last()));
    } else {
        assert(name.last() == '.');
    }
}

/// Without a dot there is no last one.
proof fn no_last_dot(name: Seq<char>)
    requires
        !name.contains('.'),
    ensures
        last_dot(name) < 0,
    decreases name.len(),
{
    if name.len() > 0 {
        let rest = name.drop_last();
        assert(name.contains(name.last()));
        assert forall|c: char| rest.contains(c) implies name.contains(c) by {
            let i = choose|i: int| 0 <= i < rest.len() && rest[i] == c;
            assert(name[i] == c);
        }
        no_last_dot(rest);
    }
}

/// Whether a text is a name that is the same on every machine, with something in
/// front of its last dot and something behind it.
pub open spec fn ends_in(name: Seq<char>, stem: Seq<char>, ending: Seq<char>) -> bool {
    &&& name == stem + seq!['.'] + ending
    &&& stem.len() > 0
    &&& ending.len() > 0
    &&& !ending.contains('.')
    &&& !name.contains('/')
    &&& !name.contains('\\')
    &&& !name.contains(':')
}

/// Such a name has its stem and its ending.
proof fn name_ends_in(name: Seq<char>, stem: Seq<char>, ending: Seq<char>)
    requires
        ends_in(name, stem, ending),
    ensures
        is_bare_name(name),
        bare_stem(name) == stem,
        bare_extension(name) == Some(ending),
{
    last_dot_is(stem, ending);
    assert(name.take(stem.len() as int) =~= stem);
    assert(name.skip(stem.len() as int + 1) =~= ending);
    assert(name[stem.len() as int + 1] == ending[0]);
    assert(ending.contains(ending[0]));
    assert(name[0] != '/' || name.contains('/'));
    if name == seq!['.', '.'] {
        assert(name[1] == '.');
    }
}

/// A file is read in the format that is told, or else in the one that its ending
/// stands for; what has another ending is taken for YAML.
pub proof fn formats_go_by_ending(
    path: &str,
    hint: FormatHint,
    format: Format,
    stem: Seq<char>,
    ending: Seq<char>,
)
    requires
        call_ensures(Format::for_path, (path, hint), format),
        ends_in(path@, stem, ending),
    ensures
        hint is Some ==> format == hint->0,
        hint is None ==> (format is Toml <==> ending == "toml"@),
        hint is None ==> (format is Json <==> ending == "json"@),
{
    name_ends_in(path@, stem, ending);
    reveal_strlit("yaml");
    reveal_strlit("yml");
    reveal_strlit("json");
    reveal_strlit("toml");
    assert("yaml"@[0] == 'y' && "yml"@[0] == 'y' && "json"@[0] == 'j' && "toml"@[0] == 't');
}

/// Four endings are known, and stand for their formats.
pub proof fn known_endings_stand_for_formats(extension: &Option<String>, format: Option<Format>)
    requires
        call_ensures(Format::from_extension, (extension,), format),
    ensures
        extension is None ==> format is None,
        extension is Some ==> {
            let ending = extension->0@;
            &&& format == Some(Format::Toml) <==> ending == "toml"@
            &&& format == Some(Format::Json) <==> ending == "json"@
            &&& format == Some(Format::Yaml) <==> ending == "yaml"@ || ending == "yml"@
        },
{
    reveal_strlit("yaml");
    reveal_strlit("yml");
    reveal_strlit("json");
    reveal_strlit("toml");
    assert("yaml"@[0] == 'y' && "yml"@[0] == 'y' && "json"@[0] == 'j' && "toml"@[0] == 't');
}

/// A component in a file of its own is named like the file, without the ending.
pub proof fn components_are_named_like_their_files(
    path: &str,
    result: Result<String, Vec<String>>,
    stem: Seq<char>,
    ending: Seq<char>,
)
    requires
        call_ensures(component_name, (path,), result),
    ensures
        ends_in(path@, stem, ending) ==> result is Ok && result->Ok_0@ == stem,
        path@.len() > 0 && !path@.contains('.') && !path@.contains('/') && !path@.contains('\\')
            && !path@.contains(':') ==> result is Ok && result->Ok_0@ == path@,
{
    if ends_in(path@, stem, ending) {
        name_ends_in(path@, stem, ending);
    }
    if path@.len() > 0 && !path@.contains('.') && !path@.contains('/') {
        no_last_dot(path@);
        assert(path@.contains(path@[0]));
    }
}

/// How many paths the first lists hold.
pub open spec fn paths_before(lists: Seq<(Vec<String>, FormatHint)>, count: int) -> int
    decreases count,
{
    if count <= 0 {
        0
    } else {
        paths_before(lists, count - 1) + lists[count - 1].0@.len()
    }
}

/// Whether a list has a path with a format at a place.
spec fn path_at(paths: Seq<(Seq<char>, FormatHint)>, place: int, path: (Seq<char>, FormatHint)) -> bool {
    0 <= place < paths.len() && paths[place] == path
}

/// The place of a path among those of several lists goes by the lists before its
/// own.
proof fn paths_follow(
    lists: Seq<(Vec<String>, FormatHint)>,
    f: spec_fn(int) -> Seq<(Seq<char>, FormatHint)>,
    count: int,
)
    requires
        0 <= count <= lists.len(),
        forall|i: int|
            0 <= i < lists.len() ==> #[trigger] f(i) == Seq::new(
                lists[i].0@.len(),
                |j: int| (lists[i].0@[j]@, lists[i].1),
            ),
    ensures
        gather(count as nat, f).len() == paths_before(lists, count),
        forall|i: int, j: int|
            0 <= i < count && 0 <= j < lists[i].0@.len() ==> #[trigger] path_at(
                gather(count as nat, f),
                paths_before(lists, i) + j,
                (lists[i].0@[j]@, lists[i].1),
            ),
    decreases count,
{
    if count > 0 {
        paths_follow(lists, f, count - 1);
        let before = gather((count - 1) as nat, f);
        assert(gather(count as nat, f) == before + f(count - 1));
        assert forall|i: int, j: int|
            0 <= i < count && 0 <= j < lists[i].0@.len() implies #[trigger] path_at(
            gather(count as nat, f),
            paths_before(lists, i) + j,
            (lists[i].0@[j]@, lists[i].1),
        ) by {
            if i < count - 1 {
                assert(path_at(before, paths_before(lists, i) + j, (lists[i].0@[j]@, lists[i].1)));
            }
        }
    }
}

/// Merged lists hold all paths of all lists in order, each with the format of
/// its list.
pub proof fn lists_are_merged_in_order(
    lists: Vec<(Vec<String>, FormatHint)>,
    merged: Vec<(String, FormatHint)>,
    list: int,
    place: int,
)
    requires
        call_ensures(merge_path_lists, (lists,), merged),
    ensures
        merged@.len() == paths_before(lists@, lists@.len() as int),
        0 <= list < lists@.len() && 0 <= place < lists@[list].0@.len() ==> {
            let at = paths_before(lists@, list) + place;
            &&& 0 <= at < merged@.len()
            &&& merged@[at].0@ == lists@[list].0@[place]@
            &&& merged@[at].1 == lists@[list].1
        },
{
    let all = merged_paths(lists@);
    let f = |i: int| Seq::new(lists@[i].0@.len(), |j: int| (lists@[i].0@[j]@, lists@[i].1));
    paths_follow(lists@, f, lists@.len() as int);
    assert(all == gather(lists@.len(), f));
    assert(hinted_models(merged@) == all);
    assert(hinted_models(merged@).len() == merged@.len());
    if 0 <= list < lists@.len() && 0 <= place < lists@[list].0@.len() {
        let at = paths_before(lists@, list) + place;
        assert(path_at(all, at, (lists@[list].0@[place]@, lists@[list].1)));
        assert(hinted_models(merged@)[at] == (merged@[at].0@, merged@[at].1));
    }
}

/// Where no place is given there is one to read from, the file `vector.yaml`
/// where programs are set up; else there are just those that are given.
pub proof fn reading_starts_where_told(
    given: &Vec<ConfigPath>,
    program_files: &Option<String>,
    paths: Vec<ConfigPath>,
)
    requires
        call_ensures(starting_paths, (given, program_files), paths),
    ensures
        given@.len() > 0 ==> paths@.len() == given@.len() && forall|i: int|
            0 <= i < given@.len() ==> match (#[trigger] paths@[i], given@[i]) {
                (ConfigPath::File(path, hint), ConfigPath::File(other, told)) => path@ == other@
                    && hint == told,
                (ConfigPath::Dir(path), ConfigPath::Dir(other)) => path@ == other@,
                _ => false,
            },
        given@.len() == 0 ==> {
            &&& paths@.len() == 1
            &&& paths@[0] is File
            &&& paths@[0]->File_1 == Some(Format::Yaml)
            &&& program_files is None ==> paths@[0]->File_0@ == "/etc/vector/vector.yaml"@
            &&& program_files is Some ==> paths@[0]->File_0@ == program_files->0@
                + "\\Vector\\config\\vector.yaml"@
        },
{
    let models = path_models(paths@);
    assert(models.len() == paths@.len());
    assert(path_models(given@).len() == given@.len());
    if given@.len() > 0 {
        assert forall|i: int| 0 <= i < given@.len() implies match (#[trigger] paths@[i], given@[i]) {
            (ConfigPath::File(path, hint), ConfigPath::File(other, told)) => path@ == other@ && hint
                == told,
            (ConfigPath::Dir(path), ConfigPath::Dir(other)) => path@ == other@,
            _ => false,
        } by {
            assert(models[i] == path_models(given@)[i]);
            assert(models[i] == paths@[i]@);
        }
    } else {
        assert(models[0] == paths@[0]@);
    }
}

/// A common start does not matter for which list of numbers comes first.
proof fn lex_common_start(start: Seq<int>, a: Seq<int>, b: Seq<int>)
    ensures
        lex_less(start + a, start + b) == lex_less(a, b),
    decreases start.len(),
{
    if start.len() > 0 {
        assert((start + a).skip(1) =~= start.skip(1) + a);
        assert((start + b).skip(1) =~= start.skip(1) + b);
        lex_common_start(start.skip(1), a, b);
    } else {
        assert(start + a =~= a);
        assert(start + b =~= b);
    }
}

/// The first slash of a text is found in any text that goes on behind it.
proof fn first_slash_stays(text: Seq<char>, more: Seq<char>)
    ensures
        0 <= first_slash(text) <= text.len(),
        forall|i: int| 0 <= i < first_slash(text) ==> text[i] != '/',
        first_slash(text) < text.len() ==> text[first_slash(text)] == '/' && first_slash(text + more)
            == first_slash(text),
        !text.contains('/') ==> first_slash(text) == text.len(),
    decreases text.len(),
{
    if text.len() > 0 && text[0] != '/' {
        let rest = text.skip(1);
        first_slash_stays(rest, more);
        assert((text + more).skip(1) =~= rest + more);
        assert forall|i: int| 0 <= i < first_slash(text) implies text[i] != '/' by {
            if i > 0 {
                assert(rest[i - 1] == text[i]);
            }
        }
        if first_slash(text) < text.len() {
            assert(text.contains(text[first_slash(text)]));
        }
    } else if text.len() > 0 {
        assert(text.contains(text[0]));
    }
}

/// The numbers of a path are those of a directory and those of what follows it.
proof fn parts_follow(directory: Seq<char>, rest: Seq<char>, at_start: bool)
    requires
        directory.len() > 0,
        directory.last() == '/',
    ensures
        parts_key(directory + rest, at_start) == parts_key(directory, at_start) + parts_key(rest, false),
    decreases directory.len(),
{
    let end = first_slash(directory);
    let all = directory + rest;
    first_slash_stays(directory, rest);
    if end == directory.len() {
        assert(directory[directory.len() - 1] == '/');
    }
    let tail = directory.skip(end + 1);
    assert(all.skip(end + 1) =~= tail + rest);
    assert(all.take(end) =~= directory.take(end));
    if tail.len() > 0 {
        assert(tail.last() == directory.last());
        parts_follow(tail, rest, false);
        assert(parts_key(all, at_start) =~= parts_key(directory, at_start) + parts_key(rest, false));
    } else {
        assert(tail + rest =~= rest);
        assert(parts_key(all, at_start) =~= parts_key(directory, at_start) + parts_key(rest, false));
    }
}

/// An empty part and the present directory make no difference behind a
/// directory: such paths have the same numbers.
proof fn needless_parts(directory: Seq<char>, rest: Seq<char>)
    requires
        directory.len() > 0,
        directory.last() == '/',
    ensures
        parts_key(directory + seq!['/'] + rest, true) == parts_key(directory + rest, true),
        parts_key(directory + seq!['.', '/'] + rest, true) == parts_key(directory + rest, true),
{
    let empty = seq!['/'] + rest;
    let present = seq!['.', '/'] + rest;
    parts_follow(directory, rest, true);
    parts_follow(directory, empty, true);
    parts_follow(directory, present, true);
    assert(directory + seq!['/'] + rest =~= directory + empty);
    assert(directory + seq!['.', '/'] + rest =~= directory + present);
    assert(first_slash(empty) == 0);
    assert(empty.take(0) =~= Seq::<char>::empty());
    assert(empty.skip(1) =~= rest);
    assert(parts_key(empty, false) =~= parts_key(rest, false));
    assert(present.skip(1)[0] == '/');
    assert(first_slash(present.skip(1)) == 0);
    assert(first_slash(present) == 1);
    assert(present.take(1) =~= seq!['.']);
    assert(present.skip(2) =~= rest);
    assert(parts_key(present, false) =~= parts_key(rest, false));
}

/// Whether a text is the name of something in a directory.
pub open spec fn is_plain_name(name: Seq<char>) -> bool {
    &&& name.len() > 0
    &&& !name.contains('/')
    &&& name != seq!['.']
    &&& name != seq!['.', '.']
}

/// Whether two texts are the same up to a place, where the first ends or goes on
/// with a lesser character than the second.
pub open spec fn parts_at(a: Seq<char>, b: Seq<char>, place: int) -> bool {
    &&& 0 <= place <= a.len()
    &&& place < b.len()
    &&& a.take(place) == b.take(place)
    &&& place == a.len() || (a[place] as int) < (b[place] as int)
}

/// The numbers of the characters of a name.
spec fn codes(name: Seq<char>) -> Seq<int> {
    name.map_values(|c: char| c as int + 1)
}

/// The number of a character is no less than nought.
proof fn code_is_no_less_than_nought(c: char)
    ensures
        c as int >= 0,
{
}

/// Names are put in order by their characters.
proof fn names_go_by_characters(a: Seq<char>, b: Seq<char>, after_a: Seq<int>, after_b: Seq<int>)
    requires
        a != b,
        lex_less(codes(a) + seq![0int] + after_a, codes(b) + seq![0int] + after_b),
    ensures
        exists|place: int| #[trigger] parts_at(a, b, place),
    decreases a.len(),
{
    let left = codes(a) + seq![0int] + after_a;
    let right = codes(b) + seq![0int] + after_b;
    if a.len() == 0 {
        assert(b.len() > 0) by {
            if b.len() == 0 {
                assert(a =~= b);
            }
        }
        assert(a.take(0) =~= b.take(0));
        assert(parts_at(a, b, 0));
    } else if b.len() == 0 {
        assert(left[0] == a[0] as int + 1);
        assert(right =~= seq![0int] + after_b);
        assert(right[0] == 0);
        code_is_no_less_than_nought(a[0]);
        assert(!lex_less(left, right));
    } else {
        assert(left[0] == a[0] as int + 1);
        assert(right[0] == b[0] as int + 1);
        if a[0] != b[0] {
            assert(a.take(0) =~= b.take(0));
            assert(parts_at(a, b, 0));
        } else {
            assert(left.skip(1) =~= codes(a.skip(1)) + seq![0int] + after_a);
            assert(right.skip(1) =~= codes(b.skip(1)) + seq![0int] + after_b);
            assert(a.skip(1) != b.skip(1)) by {
                if a.skip(1) == b.skip(1) {
                    assert(a =~= seq![a[0]] + a.skip(1));
                    assert(b =~= seq![b[0]] + b.skip(1));
                }
            }
            names_go_by_characters(a.skip(1), b.skip(1), after_a, after_b);
            let place = choose|place: int| #[trigger] parts_at(a.skip(1), b.skip(1), place);
            assert(a.take(place + 1) =~= seq![a[0]] + a.skip(1).take(place));
            assert(b.take(place + 1) =~= seq![b[0]] + b.skip(1).take(place));
            assert(parts_at(a, b, place + 1));
        }
    }
}

/// The numbers of a name in a directory.
proof fn name_in_directory(directory: Seq<char>, name: Seq<char>)
    requires
        directory.len() > 0 ==> directory.last() == '/',
        is_plain_name(name),
    ensures
        parts_key(directory + name, true) == parts_key(directory, true) + seq![4int] + codes(name)
            + seq![0int],
{
    first_slash_stays(name, Seq::empty());
    if directory.len() > 0 {
        parts_follow(directory, name, true);
    } else {
        assert(directory + name =~= name);
    }
    assert(parts_key(name, directory.len() == 0) =~= seq![4int] + codes(name) + seq![0int]);
    assert(parts_key(directory + name, true) =~= parts_key(directory, true) + seq![4int] + codes(name)
        + seq![0int]);
}

/// Of two places of one kind in a directory, the one whose name comes first by
/// its characters comes first.
proof fn names_are_in_order(
    kind: Seq<int>,
    directory: Seq<char>,
    a: Seq<char>,
    b: Seq<char>,
    after_a: Seq<int>,
    after_b: Seq<int>,
)
    requires
        directory.len() > 0 ==> directory.last() == '/',
        is_plain_name(a),
        is_plain_name(b),
        a != b,
        lex_less(
            kind + parts_key(directory + a, true) + after_a,
            kind + parts_key(directory + b, true) + after_b,
        ),
    ensures
        exists|place: int| #[trigger] parts_at(a, b, place),
{
    name_in_directory(directory, a);
    name_in_directory(directory, b);
    let start = kind + parts_key(directory, true) + seq![4int];
    let left = codes(a) + seq![0int] + after_a;
    let right = codes(b) + seq![0int] + after_b;
    assert(kind + parts_key(directory + a, true) + after_a =~= start + left);
    assert(kind + parts_key(directory + b, true) + after_b =~= start + right);
    lex_common_start(start, left, right);
    names_go_by_characters(a, b, after_a, after_b);
}

/// There is a list of places unless some pattern is none or matches nothing.
pub proof fn every_pattern_must_match(
    starting: &Vec<ConfigPath>,
    matches: &Vec<Option<Vec<String>>>,
    result: Option<Vec<ConfigPath>>,
)
    requires
        call_ensures(process_paths, (starting, matches), result),
    ensures
        result is None <==> exists|i: int|
            0 <= i < matches@.len() && match #[trigger] matches@[i] {
                None => true,
                Some(found) => found@.len() == 0,
            },
{
}

/// The text of a place.
pub open spec fn text_at(path: ConfigPath) -> Seq<char> {
    match path {
        ConfigPath::File(text, _) => text@,
        ConfigPath::Dir(text) => text@,
    }
}

/// Whether two places are of one kind: two directories, or two files to be read
/// in one format.
pub open spec fn alike(a: ConfigPath, b: ConfigPath) -> bool {
    match (a, b) {
        (ConfigPath::File(_, hint), ConfigPath::File(_, other)) => hint == other,
        (ConfigPath::Dir(_), ConfigPath::Dir(_)) => true,
        _ => false,
    }
}

/// Places with the same numbers are of one kind and have the same parts.
proof fn same_numbers(a: PathModel, b: PathModel)
    requires
        path_key(a) == path_key(b),
    ensures
        parts_key(path_text(a), true) == parts_key(path_text(b), true),
        match (a, b) {
            (PathModel::File(_, hint), PathModel::File(_, other)) => hint == other,
            (PathModel::Dir(_), PathModel::Dir(_)) => true,
            _ => false,
        },
{
    let left = path_key(a);
    let right = path_key(b);
    assert(left[0] == if a is File { 0int } else { 1int });
    assert(right[0] == if b is File { 0int } else { 1int });
    assert(a is File ==> left.last() == format_rank(a->File_1));
    assert(b is File ==> right.last() == format_rank(b->File_1));
    assert(left.subrange(1, left.len() - 2) =~= parts_key(path_text(a), true));
    assert(right.subrange(1, right.len() - 2) =~= parts_key(path_text(b), true));
}

/// Whether a list has a place of the kind of another, with the parts of a path.
pub open spec fn listed_at(
    paths: Seq<ConfigPath>,
    place: int,
    kind: ConfigPath,
    text: Seq<char>,
) -> bool {
    &&& 0 <= place < paths.len()
    &&& alike(paths[place], kind)
    &&& parts_key(text_at(paths[place]), true) == parts_key(text, true)
}

/// Whether a place is a match of a pattern, and of the pattern's kind.
pub open spec fn is_match(
    path: ConfigPath,
    starting: Seq<ConfigPath>,
    matches: Seq<Option<Vec<String>>>,
    pattern: int,
    place: int,
) -> bool {
    &&& 0 <= pattern < matches.len()
    &&& matches[pattern] is Some
    &&& 0 <= place < matches[pattern]->0@.len()
    &&& alike(path, starting[pattern])
    &&& text_at(path) == matches[pattern]->0@[place]@
}

/// All that the patterns match is listed, of its own kind, and nothing else is:
/// of paths with the same parts one stays.
pub proof fn all_matches_are_listed(
    starting: &Vec<ConfigPath>,
    matches: &Vec<Option<Vec<String>>>,
    result: Option<Vec<ConfigPath>>,
    pattern: int,
    place: int,
    k: int,
)
    requires
        call_ensures(process_paths, (starting, matches), result),
        result is Some,
        matches@.len() == starting@.len(),
    ensures
        0 <= pattern < matches@.len() && 0 <= place < matches@[pattern]->0@.len() ==> exists|at: int|
         #[trigger]
            listed_at(result->0@, at, starting@[pattern], matches@[pattern]->0@[place]@),
        0 <= k < result->0@.len() ==> exists|i: int, j: int| #[trigger]
            is_match(result->0@[k], starting@, matches@, i, j),
{
    let paths = result->0@;
    let listed = path_models(paths);
    let places = path_models(starting@);
    let f = |i: int|
        Seq::new(matches@[i]->0@.len(), |j: int| with_path(places[i], matches@[i]->0@[j]@));
    let all = matched_models(places, matches@);
    assert(all == gather(places.len(), f));
    if 0 <= pattern < matches@.len() && 0 <= place < matches@[pattern]->0@.len() {
        let wanted = with_path(places[pattern], matches@[pattern]->0@[place]@);
        let given = f(pattern);
        assert(given[place] == wanted);
        assert(given.contains(wanted));
        gathered(places.len(), f, wanted);
        let at = choose|at: int| 0 <= at < all.len() && all[at] == wanted;
        let first = first_like(all, path_key(wanted), at);
        let model = all[first];
        assert(first_of_its_kind(all, model));
        assert(listed.contains(model));
        let found = choose|found: int| 0 <= found < listed.len() && listed[found] == model;
        assert(listed[found] == paths[found]@);
        same_numbers(model, wanted);
        assert(listed_at(paths, found, starting@[pattern], matches@[pattern]->0@[place]@));
    }
    if 0 <= k < paths.len() {
        let model = listed[k];
        assert(model == paths[k]@);
        assert(listed.contains(model));
        assert(first_of_its_kind(all, model));
        assert(all.contains(model));
        gathered(places.len(), f, model);
        let i = choose|i: int| 0 <= i < places.len() && (#[trigger] f(i)).contains(model);
        let given = f(i);
        let j = choose|j: int| 0 <= j < given.len() && given[j] == model;
        assert(given[j] == with_path(places[i], matches@[i]->0@[j]@));
        assert(is_match(paths[k], starting@, matches@, i, j));
    }
}

/// There is a first place with given numbers where there is one at all.
proof fn first_like(paths: Seq<PathModel>, key: Seq<int>, at: int) -> (first: int)
    requires
        0 <= at < paths.len(),
        path_key(paths[at]) == key,
    ensures
        0 <= first < paths.len(),
        path_key(paths[first]) == key,
        forall|j: int| 0 <= j < first ==> path_key(#[trigger] paths[j]) != key,
    decreases at,
{
    if exists|i: int| 0 <= i < at && path_key(#[trigger] paths[i]) == key {
        let i = choose|i: int| 0 <= i < at && path_key(#[trigger] paths[i]) == key;
        first_like(paths, key, i)
    } else {
        at
    }
}

/// Files are listed before directories. What lies in one directory is listed by
/// name, character by character, and what is to be read in no format that is
/// told before what is to be read in TOML, in JSON and in YAML.
pub proof fn places_are_listed_in_order(
    starting: &Vec<ConfigPath>,
    matches: &Vec<Option<Vec<String>>>,
    result: Option<Vec<ConfigPath>>,
    i: int,
    j: int,
    directory: Seq<char>,
    a: Seq<char>,
    b: Seq<char>,
)
    requires
        call_ensures(process_paths, (starting, matches), result),
        result is Some,
        0 <= i < j < result->0@.len(),
    ensures
        !(result->0@[i] is Dir && result->0@[j] is File),
        (result->0@[i] is File <==> result->0@[j] is File) && text_at(result->0@[i]) == directory + a
            && text_at(result->0@[j]) == directory + b && (directory.len() > 0 ==> directory.last()
            == '/') && is_plain_name(a) && is_plain_name(b) && a != b ==> exists|place: int| #[trigger]
            parts_at(a, b, place),
        result->0@[i] is Dir && result->0@[j] is Dir ==> text_at(result->0@[i]) != text_at(
            result->0@[j],
        ),
        match (result->0@[i], result->0@[j]) {
            (ConfigPath::File(text, hint), ConfigPath::File(other, later)) => text@ == other@ ==> match (
                hint,
                later,
            ) {
                (None, Some(_)) => true,
                (Some(Format::Toml), Some(Format::Json)) => true,
                (Some(Format::Toml), Some(Format::Yaml)) => true,
                (Some(Format::Json), Some(Format::Yaml)) => true,
                _ => false,
            },
            _ => true,
        },
        alike(result->0@[i], result->0@[j]) && directory.len() > 0 && directory.last() == '/' ==> {
            let first = text_at(result->0@[i]);
            let second = text_at(result->0@[j]);
            &&& !(first == directory + a && second == directory + seq!['/'] + a)
            &&& !(second == directory + a && first == directory + seq!['/'] + a)
            &&& !(first == directory + a && second == directory + seq!['.', '/'] + a)
            &&& !(second == directory + a && first == directory + seq!['.', '/'] + a)
        },
{
    let paths = result->0@;
    let models = path_models(paths);
    assert(models[i] == paths[i]@ && models[j] == paths[j]@);
    let left = path_key(models[i]);
    let right = path_key(models[j]);
    assert(lex_less(left, right));
    let first = text_at(paths[i]);
    let second = text_at(paths[j]);
    let kind = seq![left[0]];
    let after_i = left.subrange(left.len() - 2, left.len() as int);
    let after_j = right.subrange(right.len() - 2, right.len() as int);
    assert(left =~= kind + parts_key(first, true) + after_i);
    assert(right =~= seq![right[0]] + parts_key(second, true) + after_j);
    if (paths[i] is File <==> paths[j] is File) && first == directory + a && second == directory + b
        && (directory.len() > 0 ==> directory.last() == '/') && is_plain_name(a) && is_plain_name(b)
        && a != b {
        names_are_in_order(kind, directory, a, b, after_i, after_j);
    }
    if (paths[i] is File <==> paths[j] is File) && parts_key(first, true) == parts_key(second, true) {
        let start = kind + parts_key(first, true);
        lex_common_start(start, after_i, after_j);
        lex_irreflexive(left);
        assert(after_i[0] == 0 && after_j[0] == 0);
        assert(after_i.skip(1)[0] == left.last());
        assert(after_j.skip(1)[0] == right.last());
        lex_common_start(seq![0int], after_i.skip(1), after_j.skip(1));
        assert(after_i =~= seq![0int] + after_i.skip(1));
        assert(after_j =~= seq![0int] + after_j.skip(1));
        assert(after_i.skip(1).len() == 1 && after_j.skip(1).len() == 1);
        assert(after_i.skip(1).skip(1).len() == 0 && after_j.skip(1).skip(1).len() == 0);
        assert(left.last() < right.last());
    }
    if alike(paths[i], paths[j]) && directory.len() > 0 && directory.last() == '/' {
        needless_parts(directory, a);
        assert(left.last() == right.last());
    }
}

/// A path without the name of a file names no component, and is told of.
pub proof fn paths_without_names_are_told_of(
    path: &str,
    stem: Option<String>,
    result: Result<String, Vec<String>>,
)
    requires
        call_ensures(component_name_from, (path, stem), result),
    ensures
        stem is Some ==> result is Ok && result->Ok_0@ == stem->0@,
        stem is None ==> result is Err && result->Err_0@.len() == 1 && result->Err_0@[0]@
            == "Couldn't get component name for file: "@ + debug_text(path@),
{
    if stem is None {
        let list = texts(result->Err_0@);
        assert(list.len() == result->Err_0@.len());
        assert(list[0] == result->Err_0@[0]@);
    }
}

/// A directory, the one above it and what lies in it are different places, and
/// so are paths from the root, from the present directory and from none.
pub proof fn different_parts_are_told_apart(directory: Seq<char>, name: Seq<char>)
    requires
        directory.len() > 0,
        directory.last() == '/',
        is_plain_name(name),
    ensures
        parts_key(directory + seq!['.', '.'], true) != parts_key(directory, true),
        parts_key(directory + name, true) != parts_key(directory, true),
        parts_key(directory + seq!['.', '.'], true) != parts_key(directory + name, true),
        parts_key(seq!['/'] + name, true) != parts_key(name, true),
        parts_key(seq!['.', '/'] + name, true) != parts_key(name, true),
        parts_key(seq!['.', '/'] + name, true) != parts_key(seq!['/'] + name, true),
{
    let above = seq!['.', '.'];
    let start = parts_key(directory, true);
    parts_follow(directory, above, true);
    assert(!above.contains('/')) by {
        assert forall|i: int| 0 <= i < above.len() implies above[i] != '/' by {}
    }
    first_slash_stays(above, Seq::empty());
    assert(above != seq!['.']) by {
        assert(above.len() == 2);
    }
    assert(parts_key(above, false) == seq![3int]);
    assert(parts_key(directory + above, true).len() == start.len() + 1);
    assert(parts_key(directory + above, true)[start.len() as int] == 3);
    name_in_directory(directory, name);
    assert(parts_key(directory + name, true)[start.len() as int] == 4);
    name_in_directory(Seq::empty(), name);
    assert(Seq::<char>::empty() + name =~= name);
    assert(parts_key(Seq::<char>::empty(), true) =~= Seq::<int>::empty());
    assert(parts_key(name, true)[0] == 4);
    let root = seq!['/'];
    let present = seq!['.', '/'];
    name_in_directory(root, name);
    name_in_directory(present, name);
    assert(first_slash(root) == 0);
    assert(root.take(0) =~= Seq::<char>::empty());
    assert(root.skip(1) =~= Seq::<char>::empty());
    assert(part_key(root.take(0), true) == seq![1int]);
    assert(parts_key(root.skip(1), false) =~= Seq::<int>::empty());
    assert(parts_key(root, true) =~= seq![1int]);
    assert(present.skip(1)[0] == '/');
    assert(first_slash(present.skip(1)) == 0);
    assert(first_slash(present) == 1);
    assert(present.take(1) =~= seq!['.']);
    assert(present.skip(2) =~= Seq::<char>::empty());
    assert(part_key(present.take(1), true) == seq![2int]);
    assert(parts_key(present.skip(2), false) =~= Seq::<int>::empty());
    assert(parts_key(present, true) =~= seq![2int]);
    assert(parts_key(root + name, true)[0] == 1);
    assert(parts_key(present + name, true)[0] == 2);
}

} // verus!
