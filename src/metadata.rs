use vstd::prelude::*;
use vstd::string::StringExecFns;

use crate::local::{chars_of, parts_view, split_parts};
use crate::parse::{fits, holds, parse_spec, parse_version};
use crate::version::{split_on, Error, Version};

verus! {

pub type Operator = String;

pub type Extra = String;

pub type VersionConstraint = (Operator, Version);

pub type Requirement = (String, Vec<VersionConstraint>, Extra);

/// The fields of a package metadata document; those past `version` stay unset.
#[derive(Debug)]
pub struct Metadata {
    pub metadata_version: Version,
    pub name: String,
    pub version: Version,
    pub dynamic: Option<String>,
    pub platforms: Option<Vec<String>>,
    pub suported_platforms: Option<Vec<String>>,
    pub summary: Option<String>,
    pub description: Option<String>,
    pub description_content_type: Option<String>,
    pub keywords: Option<Vec<String>>,
    pub homepage: Option<String>,
    pub download_url: Option<String>,
    pub author: Option<String>,
    pub author_email: Option<String>,
    pub maintainer: Option<String>,
    pub maintainer_email: Option<String>,
    pub license: Option<String>,
    pub classifiers: Option<Vec<String>>,
    pub requires_dist: Option<Vec<Requirement>>,
    pub requires_python: Option<Vec<VersionConstraint>>,
    pub requires_externals: Option<Vec<String>>,
    pub project_urls: Option<Vec<String>>,
    pub provides_extras: Option<Vec<Extra>>,
}

/// A line without the carriage return of a `\r\n` ending.
pub open spec fn strip_cr(l: Seq<char>) -> Seq<char> {
    if l.len() > 0 && l.last() == '\r' {
        l.drop_last()
    } else {
        l
    }
}

/// The lines of a document: cut at each `\n`, a `\r` before it dropped.
pub open spec fn lines_of(s: Seq<char>) -> Seq<Seq<char>> {
    let raw = split_on(s, '\n');
    Seq::new(raw.len(), |k: int| if k + 1 < raw.len() { strip_cr(raw[k]) } else { raw[k] })
}

pub open spec fn has_prefix(l: Seq<char>, a: Seq<char>) -> bool {
    a.len() <= l.len() && l.subrange(0, a.len() as int) == a
}

/// The first line from index `k` on that starts with `a`.
pub open spec fn first_line_with(ls: Seq<Seq<char>>, a: Seq<char>, k: int) -> Option<Seq<char>>
    decreases ls.len() - k,
{
    if k < 0 || k >= ls.len() {
        None
    } else if has_prefix(ls[k], a) {
        Some(ls[k])
    } else {
        first_line_with(ls, a, k + 1)
    }
}

/// The first index at or after `i` where `": "` starts, if any.
pub open spec fn find_colon_space(l: Seq<char>, i: int) -> Option<int>
    decreases l.len() - i,
{
    if i < 0 || i + 1 >= l.len() {
        None
    } else if l[i] == ':' && l[i + 1] == ' ' {
        Some(i)
    } else {
        find_colon_space(l, i + 1)
    }
}

/// The text of a line between its first `": "` and the next one (or the end).
pub open spec fn field_value(l: Seq<char>) -> Option<Seq<char>> {
    match find_colon_space(l, 0) {
        None => None,
        Some(k) => match find_colon_space(l, k + 2) {
            Some(m) => Some(l.subrange(k + 2, m)),
            None => Some(l.subrange(k + 2, l.len() as int)),
        },
    }
}

/// The value of the first line of `s` that starts with `a`.
pub open spec fn attribute_value(s: Seq<char>, a: Seq<char>) -> Option<Seq<char>> {
    match first_line_with(lines_of(s), a, 0) {
        Some(l) => field_value(l),
        None => None,
    }
}

fn starts_with(l: &Vec<char>, a: &Vec<char>) -> (r: bool)
    ensures
        r == has_prefix(l@, a@),
{
    if a.len() > l.len() {
        return false;
    }
    let mut j: usize = 0;
    while j < a.len()
        invariant
            a.len() <= l.len(),
            j <= a.len(),
            forall|k: int| 0 <= k < j ==> l@[k] == a@[k],
        decreases a.len() - j,
    {
        if l[j] != a[j] {
            assert(l@.subrange(0, a.len() as int)[j as int] != a@[j as int]);
            return false;
        }
        j = j + 1;
    }
    assert(l@.subrange(0, a.len() as int) =~= a@);
    true
}

fn find_colon_space_at(l: &Vec<char>, i: usize) -> (r: Option<usize>)
    ensures
        match r {
            Some(k) => find_colon_space(l@, i as int) == Some(k as int) && i <= k && k + 1 < l.len(),
            None => find_colon_space(l@, i as int) is None,
        },
{
    let mut j = i;
    while j < l.len() && l.len() - j > 1
        invariant
            i <= j,
            find_colon_space(l@, i as int) == find_colon_space(l@, j as int),
        decreases l.len() - j,
    {
        if l[j] == ':' && l[j + 1] == ' ' {
            return Some(j);
        }
        j = j + 1;
    }
    None
}

fn slice_string(l: &Vec<char>, from: usize, to: usize) -> (r: String)
    requires
        from <= to <= l.len(),
    ensures
        r@ == l@.subrange(from as int, to as int),
{
    let mut r = String::new();
    let mut k = from;
    assert(r@ =~= l@.subrange(from as int, from as int));
    while k < to
        invariant
            from <= k <= to <= l.len(),
            r@ == l@.subrange(from as int, k as int),
        decreases to - k,
    {
        assert(l@.subrange(from as int, k + 1) =~= l@.subrange(from as int, k as int).push(l@[k as int]));
        crate::parse::push_char(&mut r, l[k]);
        k = k + 1;
    }
    r
}

/// Finds the value of a field in a metadata document: the text after the first `": "` on
/// the first line that starts with `attribute`, up to the next `": "`.
pub fn get_metadata_attribute(metadata_string: &String, attribute: String) -> (r: Result<String, Error>)
    ensures
        match r {
            Ok(v) => attribute_value(metadata_string@, attribute@) == Some(v@),
            Err(e) => attribute_value(metadata_string@, attribute@) is None && (e matches Error::MissingField(t)
                && t@ == attribute@),
        },
{
    let raw = split_parts(&chars_of(metadata_string), '\n');
    let a = chars_of(&attribute);
    let ghost ls = lines_of(metadata_string@);
    let mut k: usize = 0;
    while k < raw.len()
        invariant
            parts_view(raw@) == split_on(metadata_string@, '\n'),
            ls == lines_of(metadata_string@),
            a@ == attribute@,
            k <= raw.len(),
            first_line_with(ls, a@, 0) == first_line_with(ls, a@, k as int),
        decreases raw.len() - k,
    {
        let mut line: Vec<char> = raw[k].clone();
        if k + 1 < raw.len() && line.len() > 0 && line[line.len() - 1] == '\r' {
            line.pop();
        }
        assert(line@ == ls[k as int]);
        if starts_with(&line, &a) {
            return match find_colon_space_at(&line, 0) {
                None => Err(Error::MissingField(attribute)),
                Some(c) => match find_colon_space_at(&line, c + 2) {
                    Some(m) => Ok(slice_string(&line, c + 2, m)),
                    None => Ok(slice_string(&line, c + 2, line.len())),
                },
            };
        }
        k = k + 1;
    }
    Err(Error::MissingField(attribute))
}

/// Whether `t` is a version that `parse_version` accepts.
pub open spec fn version_ok(t: Seq<char>) -> bool {
    parse_spec(t) is Some && fits(parse_spec(t)->0)
}

/// Whether the document has the three fields that `parse_metadata` reads, with both
/// versions well formed.
pub open spec fn metadata_ok(s: Seq<char>) -> bool {
    &&& attribute_value(s, "Metadata-Version:"@) is Some
    &&& version_ok(attribute_value(s, "Metadata-Version:"@)->0)
    &&& attribute_value(s, "Name:"@) is Some
    &&& attribute_value(s, "Version:"@) is Some
    &&& version_ok(attribute_value(s, "Version:"@)->0)
}

/// Reads the metadata format version, the name and the version from a metadata document.
pub fn parse_metadata(metadata_string: String) -> (r: Result<Metadata, Error>)
    ensures
        match r {
            Ok(m) => {
                &&& metadata_ok(metadata_string@)
                &&& holds(&m.metadata_version, parse_spec(attribute_value(metadata_string@, "Metadata-Version:"@)->0)->0)
                &&& m.metadata_version.version_string@ == attribute_value(metadata_string@, "Metadata-Version:"@)->0
                &&& m.name@ == attribute_value(metadata_string@, "Name:"@)->0
                &&& holds(&m.version, parse_spec(attribute_value(metadata_string@, "Version:"@)->0)->0)
                &&& m.version.version_string@ == attribute_value(metadata_string@, "Version:"@)->0
                &&& m.dynamic is None && m.platforms is None && m.suported_platforms is None
                &&& m.summary is None && m.description is None && m.description_content_type is None
                &&& m.keywords is None && m.homepage is None && m.download_url is None
                &&& m.author is None && m.author_email is None && m.maintainer is None
                &&& m.maintainer_email is None && m.license is None && m.classifiers is None
                &&& m.requires_dist is None && m.requires_python is None
                &&& m.requires_externals is None && m.project_urls is None && m.provides_extras is None
            },
            Err(e) => {
                &&& !metadata_ok(metadata_string@)
                &&& e is MissingField ==> attribute_value(metadata_string@, "Metadata-Version:"@) is None
                    || attribute_value(metadata_string@, "Name:"@) is None
                    || attribute_value(metadata_string@, "Version:"@) is None
                &&& e is MalformedVersion ==> !version_ok(attribute_value(metadata_string@, "Metadata-Version:"@)->0)
                    || !version_ok(attribute_value(metadata_string@, "Version:"@)->0)
            },
        },
{
    let mv = get_metadata_attribute(&metadata_string, String::from_str("Metadata-Version:"))?;
    let metadata_version = parse_version(mv)?;
    let name = get_metadata_attribute(&metadata_string, String::from_str("Name:"))?;
    let v = get_metadata_attribute(&metadata_string, String::from_str("Version:"))?;
    let version = parse_version(v)?;
    Ok(Metadata {
        metadata_version,
        name,
        version,
        dynamic: None,
        platforms: None,
        suported_platforms: None,
        summary: None,
        description: None,
        description_content_type: None,
        keywords: None,
        homepage: None,
        download_url: None,
        author: None,
        author_email: None,
        maintainer: None,
        maintainer_email: None,
        license: None,
        classifiers: None,
        requires_dist: None,
        requires_python: None,
        requires_externals: None,
        project_urls: None,
        provides_extras: None,
    })
}

} // verus!
