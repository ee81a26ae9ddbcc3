//! Paths as texts, and where a report goes.
//!
//! A slash separates the components of a path. On some machines a backslash does so too, and a
//! path can begin with a drive such as `C:`; functions that depend on this take it as their first
//! argument. There a path that begins with two separators names a server, and is taken apart by
//! the standard library.
//!
//! Empty components and `.` components say nothing and are passed over, except for a `.` at the
//! very front of a path, which is a component of its own.
use crate::cli::opt_text;
use crate::files::is_otlp_name;
use crate::text::{chars_of, ends_with, same_text, text_of};
use vstd::prelude::*;

verus! {

/// Whether a character separates components.
pub open spec fn separates(backslash: bool, c: char) -> bool {
    c == '/' || (backslash && c == '\\')
}

/// Whether a path begins with a drive: a letter and a colon.
pub open spec fn is_drive(path: Seq<char>) -> bool {
    &&& path.len() >= 2
    &&& path[1] == ':'
    &&& 'a' <= path[0] <= 'z' || 'A' <= path[0] <= 'Z'
}

/// Whether a path begins with two separators, and so names a server where a backslash separates.
pub open spec fn names_a_server(path: Seq<char>) -> bool {
    path.len() >= 2 && separates(true, path[0]) && separates(true, path[1])
}

/// Where the drive of a path ends.
pub open spec fn prefix_end(backslash: bool, path: Seq<char>) -> int {
    if backslash && is_drive(path) {
        2
    } else {
        0
    }
}

/// Where the components behind a drive and behind a leading separator or `.` begin.
pub open spec fn body_start(backslash: bool, path: Seq<char>) -> int {
    let p = prefix_end(backslash, path);
    if p < path.len() && separates(backslash, path[p]) {
        p + 1
    } else if p < path.len() && path[p] == '.' && (p + 1 == path.len() || separates(
        backslash,
        path[p + 1],
    )) {
        p + 1
    } else {
        p
    }
}

/// Where the component that ends at `end` begins; none begins in front of `from`.
pub open spec fn component_start(backslash: bool, path: Seq<char>, from: int, end: int) -> int
    decreases end - from,
{
    if end <= from {
        from
    } else if separates(backslash, path[end - 1]) {
        end
    } else {
        component_start(backslash, path, from, end - 1)
    }
}

/// Where the path in front of the component that begins at `start` ends.
pub open spec fn end_before(from: int, start: int) -> int {
    if start > from {
        start - 1
    } else {
        from
    }
}

/// Whether `start..end` is a component that says nothing.
pub open spec fn says_nothing(path: Seq<char>, start: int, end: int) -> bool {
    end == start || (end == start + 1 && path[start] == '.')
}

/// Where the last component that says something ends, of those that end at `end` or before it;
/// `from` if there is none.
pub open spec fn last_end(backslash: bool, path: Seq<char>, from: int, end: int) -> int
    decreases end - from,
{
    if end <= from {
        from
    } else {
        let start = component_start(backslash, path, from, end);
        if start > end || start < from {
            from
        } else if says_nothing(path, start, end) {
            last_end(backslash, path, from, end_before(from, start))
        } else {
            end
        }
    }
}

/// The last component of a path as the range of its characters; empty if there is none behind
/// what the path begins with.
pub open spec fn last_component(backslash: bool, path: Seq<char>) -> (int, int) {
    let from = body_start(backslash, path);
    let end = last_end(backslash, path, from, path.len() as int);
    (component_start(backslash, path, from, end), end)
}

/// The path without its last component; nothing for a root, a drive and the empty path.
pub open spec fn parent(backslash: bool, path: Seq<char>) -> Option<Seq<char>> {
    let p = prefix_end(backslash, path);
    let from = body_start(backslash, path);
    let (start, end) = last_component(backslash, path);
    if end > from {
        Some(path.take(last_end(backslash, path, from, end_before(from, start))))
    } else if from > p && path[p] == '.' {
        Some(path.take(p))
    } else {
        None
    }
}

/// The last component of a path if it is a name: not the root, not `.` and not `..`.
pub open spec fn file_name(backslash: bool, path: Seq<char>) -> Option<Seq<char>> {
    let (start, end) = last_component(backslash, path);
    if end > body_start(backslash, path) && path.subrange(start, end) != ".."@ {
        Some(path.subrange(start, end))
    } else {
        None
    }
}

/// Where the last dot of a name stands, of those in front of `end`; zero if there is none, and
/// if it is the first character.
pub open spec fn last_dot(name: Seq<char>, end: int) -> int
    decreases end,
{
    if end <= 1 {
        0
    } else if name[end - 1] == '.' {
        end - 1
    } else {
        last_dot(name, end - 1)
    }
}

/// A name without its extension. A dot at the front begins no extension.
pub open spec fn stem(name: Seq<char>) -> Seq<char> {
    let dot = last_dot(name, name.len() as int);
    if dot > 0 {
        name.take(dot)
    } else {
        name
    }
}

/// What stands behind the last dot of a name. A dot at the front begins no extension.
pub open spec fn extension(name: Seq<char>) -> Option<Seq<char>> {
    let dot = last_dot(name, name.len() as int);
    if dot > 0 {
        Some(name.skip(dot + 1))
    } else {
        None
    }
}

/// `name` inside the directory `dir`, with `glue` between them where they need it. A name with a
/// drive stays as it is, and one from the root keeps nothing of `dir` but its drive.
pub open spec fn joined(backslash: bool, glue: char, dir: Seq<char>, name: Seq<char>) -> Seq<char> {
    if name.len() > 0 && separates(backslash, name[0]) {
        dir.take(prefix_end(backslash, dir)) + name
    } else if backslash && is_drive(name) {
        name
    } else if dir.len() == prefix_end(backslash, dir) || separates(backslash, dir.last()) {
        dir + name
    } else {
        dir.push(glue) + name
    }
}

/// The name of the report on one of several files, from the name in the report path.
pub open spec fn report_name(name: Option<Seq<char>>, file_stem: Seq<char>) -> Seq<char> {
    let base = match name {
        Some(n) => stem(n),
        None => "verdict"@,
    };
    let ext = match name {
        Some(n) => match extension(n) {
            Some(e) => e,
            None => "html"@,
        },
        None => "html"@,
    };
    base + "-"@ + file_stem + "."@ + ext
}

/// The separator with which a report path is continued: a backslash where it separates and the
/// path is written with it.
pub open spec fn glue_for(backslash: bool, report: Seq<char>) -> char {
    if backslash && report.contains('\\') {
        '\\'
    } else {
        '/'
    }
}

/// Where the report on one of several files goes, from the parent and the name of the report
/// path: into the same directory, with the file's stem put in front of the extension. `verdict`
/// and `html` stand in where the report path has no name or no extension, and the working
/// directory where it has no parent.
pub open spec fn report_path_from(
    backslash: bool,
    glue: char,
    dir: Option<Seq<char>>,
    name: Option<Seq<char>>,
    file_stem: Seq<char>,
) -> Seq<char> {
    let dir = match dir {
        Some(d) => d,
        None => "."@,
    };
    joined(backslash, glue, dir, report_name(name, file_stem))
}

/// Where the report on one of several files goes.
pub open spec fn report_path_for(
    backslash: bool,
    report: Seq<char>,
    file_stem: Seq<char>,
) -> Seq<char> {
    report_path_from(
        backslash,
        glue_for(backslash, report),
        parent(backslash, report),
        file_name(backslash, report),
        file_stem,
    )
}

/// What holds of the parent and the name of every path, however it is divided: the parent is the
/// front of the path, and the name is not empty and not `..`.
pub open spec fn are_parts(
    path: Seq<char>,
    dir: Option<Seq<char>>,
    name: Option<Seq<char>>,
) -> bool {
    &&& dir matches Some(d) ==> d.is_prefix_of(path)
    &&& name matches Some(n) ==> n.len() > 0 && n != ".."@
}

/// Whether the report on one of several files goes to `path` where a backslash separates, or
/// where it does not. The parent and the name of a path to a server are left to the machine.
pub open spec fn goes_to(
    backslash: bool,
    report: Seq<char>,
    file_stem: Seq<char>,
    path: Seq<char>,
) -> bool {
    if backslash && names_a_server(report) {
        exists|dir: Option<Seq<char>>, name: Option<Seq<char>>|
            are_parts(report, dir, name) && path == #[trigger] report_path_from(
                true,
                glue_for(true, report),
                dir,
                name,
                file_stem,
            )
    } else {
        path == report_path_for(backslash, report, file_stem)
    }
}

/// Whether a path means the same on every machine: it holds no backslash, begins with no drive
/// and no two slashes, and its name is not one that could be taken for a drive.
pub open spec fn is_portable(path: Seq<char>) -> bool {
    &&& !path.contains('\\')
    &&& !is_drive(path)
    &&& !names_a_server(path)
    &&& file_name(false, path) matches Some(n) ==> !is_drive(n)
}

/// Whether a report goes to `path`: to `report` as it is for a single file, and for one of
/// several to where one of the two kinds of machine puts it, which are one for a portable path.
pub open spec fn is_report_path(
    report: Seq<char>,
    file_stem: Option<Seq<char>>,
    path: Seq<char>,
) -> bool {
    match file_stem {
        None => path == report,
        Some(s) => {
            &&& is_portable(report) ==> path == report_path_for(false, report, s)
            &&& goes_to(false, report, s, path) || goes_to(true, report, s, path)
        },
    }
}

/// [`std::path::is_separator`]: whether a character separates components on this machine. Nothing
/// is said of it, since machines differ.
pub assume_specification[ std::path::is_separator ](c: char) -> (r: bool);

/// [`std::path::Path::parent`]: what is left of a path without its last component, if it has one
/// that can be taken away. How a path is divided into components depends on the machine.
#[verifier::external_body]
fn std_parent(path: &str) -> (r: Option<String>)
    ensures
        r matches Some(p) ==> p@.is_prefix_of(path@),
{
    match std::path::Path::new(path).parent() {
        Some(p) => Some(p.to_string_lossy().into_owned()),
        None => None,
    }
}

/// [`std::path::Path::file_name`]: the last component of a path, if that is a name and not `..`.
/// How a path is divided into components depends on the machine.
#[verifier::external_body]
fn std_file_name(path: &str) -> (r: Option<String>)
    ensures
        r matches Some(n) ==> n@.len() > 0 && n@ != ".."@,
{
    match std::path::Path::new(path).file_name() {
        Some(n) => Some(n.to_string_lossy().into_owned()),
        None => None,
    }
}

fn is_separator_char(backslash: bool, c: char) -> (r: bool)
    ensures
        r == separates(backslash, c),
{
    c == '/' || (backslash && c == '\\')
}

fn starts_with_drive(path: &Vec<char>) -> (r: bool)
    ensures
        r == is_drive(path@),
{
    path.len() >= 2 && path[1] == ':' && (('a' <= path[0] && path[0] <= 'z') || ('A' <= path[0]
        && path[0] <= 'Z'))
}

fn find_prefix(backslash: bool, path: &Vec<char>) -> (r: usize)
    ensures
        r == prefix_end(backslash, path@),
        r <= path@.len(),
{
    if backslash && starts_with_drive(path) {
        2
    } else {
        0
    }
}

fn find_body(backslash: bool, path: &Vec<char>) -> (r: usize)
    ensures
        r == body_start(backslash, path@),
        prefix_end(backslash, path@) <= r <= path@.len(),
{
    let p = find_prefix(backslash, path);
    if p < path.len() && is_separator_char(backslash, path[p]) {
        p + 1
    } else if p < path.len() && path[p] == '.' && (p + 1 == path.len() || is_separator_char(
        backslash,
        path[p + 1],
    )) {
        p + 1
    } else {
        p
    }
}

fn find_component(backslash: bool, path: &Vec<char>, from: usize, end: usize) -> (r: usize)
    requires
        from <= end <= path@.len(),
    ensures
        r == component_start(backslash, path@, from as int, end as int),
        from <= r <= end,
{
    let mut at = end;
    while at > from && !is_separator_char(backslash, path[at - 1])
        invariant
            from <= at <= end <= path@.len(),
            component_start(backslash, path@, from as int, end as int) == component_start(
                backslash,
                path@,
                from as int,
                at as int,
            ),
        decreases at,
    {
        at = at - 1;
    }
    at
}

fn find_last_end(backslash: bool, path: &Vec<char>, from: usize, end: usize) -> (r: usize)
    requires
        from <= end <= path@.len(),
    ensures
        r == last_end(backslash, path@, from as int, end as int),
        from <= r <= end,
{
    let mut at = end;
    while at > from
        invariant
            from <= at <= end <= path@.len(),
            last_end(backslash, path@, from as int, end as int) == last_end(
                backslash,
                path@,
                from as int,
                at as int,
            ),
        decreases at,
    {
        let start = find_component(backslash, path, from, at);
        if at == start || (at == start + 1 && path[start] == '.') {
            at = if start > from {
                start - 1
            } else {
                from
            };
        } else {
            return at;
        }
    }
    at
}

/// The path without its last component; nothing for a root, a drive and the empty path.
pub fn parent_of(backslash: bool, path: &str) -> (r: Option<String>)
    ensures
        match r {
            Some(p) => parent(backslash, path@) == Some(p@),
            None => parent(backslash, path@) is None,
        },
{
    let chars = chars_of(path);
    let prefix = find_prefix(backslash, &chars);
    let from = find_body(backslash, &chars);
    let end = find_last_end(backslash, &chars, from, chars.len());
    if end > from {
        let start = find_component(backslash, &chars, from, end);
        let cut: usize = if start > from {
            start - 1
        } else {
            from
        };
        let parent_end = find_last_end(backslash, &chars, from, cut);
        assert(path@.take(parent_end as int) =~= path@.subrange(0, parent_end as int));
        Some(text_of(&chars, 0, parent_end))
    } else if from > prefix && chars[prefix] == '.' {
        assert(path@.take(prefix as int) =~= path@.subrange(0, prefix as int));
        Some(text_of(&chars, 0, prefix))
    } else {
        None
    }
}

/// The last component of a path if it is a name: not the root, not `.` and not `..`.
pub fn file_name_of(backslash: bool, path: &str) -> (r: Option<String>)
    ensures
        match r {
            Some(n) => file_name(backslash, path@) == Some(n@),
            None => file_name(backslash, path@) is None,
        },
{
    let chars = chars_of(path);
    let from = find_body(backslash, &chars);
    let end = find_last_end(backslash, &chars, from, chars.len());
    if end > from {
        let start = find_component(backslash, &chars, from, end);
        let name = text_of(&chars, start, end);
        if !same_text(name.as_str(), "..") {
            return Some(name);
        }
    }
    None
}

fn find_dot(name: &Vec<char>) -> (r: usize)
    ensures
        r == last_dot(name@, name@.len() as int),
        r == 0 || r < name@.len(),
{
    let mut at = name.len();
    while at > 1 && name[at - 1] != '.'
        invariant
            at <= name@.len(),
            last_dot(name@, name@.len() as int) == last_dot(name@, at as int),
        decreases at,
    {
        at = at - 1;
    }
    if at > 1 {
        at - 1
    } else {
        0
    }
}

/// A name without its extension. A dot at the front begins no extension.
pub fn stem_of(name: &str) -> (r: String)
    ensures
        r@ == stem(name@),
{
    let chars = chars_of(name);
    let dot = find_dot(&chars);
    let end = if dot > 0 {
        dot
    } else {
        chars.len()
    };
    assert(name@.subrange(0, name@.len() as int) =~= name@);
    assert(name@.subrange(0, dot as int) =~= name@.take(dot as int));
    text_of(&chars, 0, end)
}

/// What stands behind the last dot of a name. A dot at the front begins no extension.
pub fn extension_of(name: &str) -> (r: Option<String>)
    ensures
        match r {
            Some(e) => extension(name@) == Some(e@),
            None => extension(name@) is None,
        },
{
    let chars = chars_of(name);
    let len = chars.len();
    let dot = find_dot(&chars);
    if dot > 0 {
        assert(name@.subrange(dot + 1, name@.len() as int) =~= name@.skip(dot + 1));
        Some(text_of(&chars, dot + 1, len))
    } else {
        None
    }
}

/// `name` inside the directory `dir`, with `glue` between them where they need it.
pub fn join_path(backslash: bool, glue: char, dir: &str, name: &str) -> (r: String)
    ensures
        r@ == joined(backslash, glue, dir@, name@),
{
    let d = chars_of(dir);
    let n = chars_of(name);
    let prefix = find_prefix(backslash, &d);
    if n.len() > 0 && is_separator_char(backslash, n[0]) {
        assert(dir@.subrange(0, prefix as int) =~= dir@.take(prefix as int));
        let mut out = text_of(&d, 0, prefix);
        out.append(name);
        return out;
    }
    if backslash && starts_with_drive(&n) {
        return name.to_owned();
    }
    let mut out = dir.to_owned();
    if !(d.len() == prefix || is_separator_char(backslash, d[d.len() - 1])) {
        out.push(glue);
    }
    out.append(name);
    out
}

/// The name of the report on one of several files.
pub fn report_name_for(name: Option<String>, file_stem: &str) -> (r: String)
    ensures
        r@ == report_name(opt_text(name), file_stem@),
{
    let (base, ext) = match name {
        Some(name) => {
            let ext = match extension_of(name.as_str()) {
                Some(e) => e,
                None => "html".to_owned(),
            };
            (stem_of(name.as_str()), ext)
        },
        None => ("verdict".to_owned(), "html".to_owned()),
    };
    let mut text = base;
    text.append("-");
    text.append(file_stem);
    text.append(".");
    text.append(ext.as_str());
    text
}

fn has_backslash(path: &str) -> (r: bool)
    ensures
        r == path@.contains('\\'),
{
    let chars = chars_of(path);
    for i in 0..chars.len()
        invariant
            chars@ == path@,
            forall|k: int| 0 <= k < i ==> path@[k] != '\\',
    {
        if chars[i] == '\\' {
            assert(path@[i as int] == '\\');
            return true;
        }
    }
    false
}

fn leads_to_server(path: &str) -> (r: bool)
    ensures
        r == names_a_server(path@),
{
    let chars = chars_of(path);
    chars.len() >= 2 && is_separator_char(true, chars[0]) && is_separator_char(true, chars[1])
}

/// Where the report on one of several files goes, from the parent and the name of the report
/// path.
pub fn report_path_in(
    backslash: bool,
    glue: char,
    dir: Option<String>,
    name: Option<String>,
    file_stem: &str,
) -> (r: String)
    ensures
        r@ == report_path_from(
            backslash,
            glue,
            opt_text(dir),
            opt_text(name),
            file_stem@,
        ),
{
    let dir = match dir {
        Some(d) => d,
        None => ".".to_owned(),
    };
    let name = report_name_for(name, file_stem);
    join_path(backslash, glue, dir.as_str(), name.as_str())
}

/// Where the report on one of several files goes on a machine where a backslash separates
/// components, or on one where it does not.
pub fn report_path_where(backslash: bool, report_arg: &str, file_stem: &str) -> (r: String)
    ensures
        goes_to(backslash, report_arg@, file_stem@, r@),
{
    let glue = if backslash && has_backslash(report_arg) {
        '\\'
    } else {
        '/'
    };
    assert(glue == glue_for(backslash, report_arg@));
    if backslash && leads_to_server(report_arg) {
        let dir = std_parent(report_arg);
        let name = std_file_name(report_arg);
        let ghost d = opt_text(dir);
        let ghost n = opt_text(name);
        let path = report_path_in(true, glue, dir, name, file_stem);
        assert(are_parts(report_arg@, d, n));
        assert(path@ == report_path_from(true, glue, d, n, file_stem@));
        path
    } else {
        let dir = parent_of(backslash, report_arg);
        let name = file_name_of(backslash, report_arg);
        report_path_in(backslash, glue, dir, name, file_stem)
    }
}

/// Where a report goes: to `report_arg` as it is for a single file, and beside it, with the
/// file's stem in the name, for one of several. A path that means different things on different
/// machines is taken as this machine takes it.
pub fn derive_report_path(report_arg: &str, file_stem: Option<&str>) -> (r: String)
    ensures
        is_report_path(
            report_arg@,
            match file_stem {
                Some(s) => Some(s@),
                None => None,
            },
            r@,
        ),
        file_stem is None ==> r@ == report_arg@,
{
    match file_stem {
        Some(s) => {
            let backslash = std::path::is_separator('\\');
            let path = report_path_where(backslash, report_arg, s);
            proof {
                if is_portable(report_arg@) {
                    law_portable_paths_mean_the_same(report_arg@, s@);
                }
            }
            path
        },
        None => report_arg.to_owned(),
    }
}

/// Whether a name ends in `.otlp.proto`, or in that followed by more `.otlp`.
pub open spec fn ends_in_proto(name: Seq<char>) -> bool
    decreases name.len(),
{
    if ".otlp.proto"@.is_suffix_of(name) {
        true
    } else if name.len() >= 5 && ".otlp"@.is_suffix_of(name) {
        ends_in_proto(name.take(name.len() - 5))
    } else {
        false
    }
}

/// What stands for a capture in the name of the report on it: its name without `.otlp.json`. Only
/// the extension is left out where the rest could be taken for that of a `.otlp.proto.json`
/// capture, and of every other name.
pub open spec fn source_stem(name: Seq<char>) -> Seq<char> {
    let base = name.take(name.len() - 10);
    if ".otlp.json"@.is_suffix_of(name) && !ends_in_proto(base) {
        base
    } else {
        stem(name)
    }
}

fn is_proto(name: &Vec<char>, end: usize) -> (r: bool)
    requires
        end <= name@.len(),
    ensures
        r == ends_in_proto(name@.take(end as int)),
    decreases end,
{
    proof {
        reveal_strlit(".otlp");
        assert(".otlp"@.len() == 5);
        assert(name@.subrange(0, end as int) =~= name@.take(end as int));
    }
    let text = text_of(name, 0, end);
    if ends_with(text.as_str(), ".otlp.proto") {
        true
    } else if ends_with(text.as_str(), ".otlp") {
        assert(name@.take(end as int).take(end - 5) =~= name@.take(end - 5));
        is_proto(name, end - 5)
    } else {
        false
    }
}

/// What stands for a capture in the name of the report on it.
pub fn source_stem_of(name: &str) -> (r: String)
    ensures
        r@ == source_stem(name@),
{
    if ends_with(name, ".otlp.json") {
        proof {
            reveal_strlit(".otlp.json");
            assert(".otlp.json"@.len() == 10);
        }
        let chars = chars_of(name);
        let end = chars.len() - 10;
        if !is_proto(&chars, end) {
            assert(name@.take(end as int) =~= name@.subrange(0, end as int));
            return text_of(&chars, 0, end);
        }
    }
    stem_of(name)
}

/// A component lies within its bounds, holds no separator, and stands at the front or behind one.
proof fn lemma_component(backslash: bool, path: Seq<char>, from: int, end: int)
    requires
        0 <= from <= end <= path.len(),
    ensures
        from <= component_start(backslash, path, from, end) <= end,
        forall|i: int|
            component_start(backslash, path, from, end) <= i < end ==> !separates(
                backslash,
                #[trigger] path[i],
            ),
        component_start(backslash, path, from, end) > from ==> separates(
            backslash,
            path[component_start(backslash, path, from, end) - 1],
        ),
    decreases end - from,
{
    if end > from && !separates(backslash, path[end - 1]) {
        lemma_component(backslash, path, from, end - 1);
    }
}

/// Where a run of other characters behind a separator, or at the front, begins as a component.
proof fn lemma_component_at(backslash: bool, path: Seq<char>, from: int, start: int, end: int)
    requires
        0 <= from <= start <= end <= path.len(),
        forall|i: int| start <= i < end ==> !separates(backslash, #[trigger] path[i]),
        start == from || separates(backslash, path[start - 1]),
    ensures
        component_start(backslash, path, from, end) == start,
    decreases end - start,
{
    if end > start {
        lemma_component_at(backslash, path, from, start, end - 1);
    }
}

/// The last component that says something ends within its bounds.
proof fn lemma_last_end(backslash: bool, path: Seq<char>, from: int, end: int)
    requires
        0 <= from <= end <= path.len(),
    ensures
        ({
            let last = last_end(backslash, path, from, end);
            &&& from <= last <= end
            &&& last > from ==> !says_nothing(
                path,
                component_start(backslash, path, from, last),
                last,
            )
        }),
    decreases end - from,
{
    if end > from {
        lemma_component(backslash, path, from, end);
        let start = component_start(backslash, path, from, end);
        if says_nothing(path, start, end) {
            lemma_last_end(backslash, path, from, end_before(from, start));
        }
    }
}

/// The name of a path has characters, none of which separates.
proof fn lemma_file_name(backslash: bool, path: Seq<char>)
    ensures
        file_name(backslash, path) matches Some(n) ==> n.len() > 0 && (forall|i: int|
            0 <= i < n.len() ==> !separates(backslash, #[trigger] n[i])) && (forall|i: int|
            0 <= i < n.len() ==> path.contains(#[trigger] n[i])),
{
    let from = body_start(backslash, path);
    lemma_last_end(backslash, path, from, path.len() as int);
    let end = last_end(backslash, path, from, path.len() as int);
    lemma_component(backslash, path, from, end);
    let start = component_start(backslash, path, from, end);
    if let Some(n) = file_name(backslash, path) {
        assert forall|i: int| 0 <= i < n.len() implies !separates(backslash, #[trigger] n[i]) by {
            assert(n[i] == path[start + i]);
        }
        assert forall|i: int| 0 <= i < n.len() implies path.contains(#[trigger] n[i]) by {
            assert(n[i] == path[start + i]);
        }
    }
}

/// Where the last dot of a name stands.
proof fn lemma_last_dot(name: Seq<char>, end: int)
    requires
        0 <= end <= name.len(),
    ensures
        0 <= last_dot(name, end),
        last_dot(name, end) < end || end == 0,
    decreases end,
{
    if end > 1 && name[end - 1] != '.' {
        lemma_last_dot(name, end - 1);
    }
}

/// How the name of a report begins: as the name in the report path does, or with `verdict`.
proof fn lemma_report_name(name: Option<Seq<char>>, s: Seq<char>)
    requires
        name matches Some(n) ==> n.len() > 0,
    ensures
        ({
            let r = report_name(name, s);
            &&& r.len() >= 3
            &&& r[0] == match name {
                Some(n) => n[0],
                None => 'v',
            }
            &&& r[1] == '-' || r[1] == match name {
                Some(n) => n[1],
                None => 'e',
            }
            &&& name matches Some(n) ==> r[1] == '-' || n.len() >= 2
        }),
{
    reveal_strlit("-");
    reveal_strlit(".");
    reveal_strlit("verdict");
    if let Some(n) = name {
        lemma_last_dot(n, n.len() as int);
    }
}

/// A name that could be taken for a drive comes from one.
proof fn lemma_report_name_is_no_drive(name: Option<Seq<char>>, s: Seq<char>)
    requires
        name matches Some(n) ==> n.len() > 0 && !is_drive(n),
    ensures
        !is_drive(report_name(name, s)),
{
    lemma_report_name(name, s);
}

/// The separators in a report's name are those of the stem.
proof fn lemma_report_name_is_plain(backslash: bool, name: Option<Seq<char>>, s: Seq<char>)
    requires
        name matches Some(n) ==> n.len() > 0 && (forall|i: int|
            0 <= i < n.len() ==> !separates(backslash, #[trigger] n[i])),
        forall|i: int| 0 <= i < s.len() ==> !separates(backslash, #[trigger] s[i]),
    ensures
        forall|i: int|
            0 <= i < report_name(name, s).len() ==> !separates(
                backslash,
                #[trigger] report_name(name, s)[i],
            ),
{
    reveal_strlit("-");
    reveal_strlit(".");
    reveal_strlit("verdict");
    reveal_strlit("html");
    let base = match name {
        Some(n) => stem(n),
        None => "verdict"@,
    };
    let ext = match name {
        Some(n) => match extension(n) {
            Some(e) => e,
            None => "html"@,
        },
        None => "html"@,
    };
    if let Some(n) = name {
        let dot = last_dot(n, n.len() as int);
        lemma_last_dot(n, n.len() as int);
        assert forall|i: int| 0 <= i < base.len() implies !separates(
            backslash,
            #[trigger] base[i],
        ) by {
            assert(base[i] == n[i]);
        }
        if dot > 0 {
            assert forall|i: int| 0 <= i < ext.len() implies !separates(
                backslash,
                #[trigger] ext[i],
            ) by {
                assert(ext[i] == n[dot + 1 + i]);
            }
        }
    }
    let r = report_name(name, s);
    let a = base.len() as int;
    let b = a + 1 + s.len();
    assert forall|i: int| 0 <= i < r.len() implies !separates(backslash, #[trigger] r[i]) by {
        if i < a {
            assert(r[i] == base[i]);
        } else if i == a {
            assert(r[i] == '-');
        } else if i < b {
            assert(r[i] == s[i - a - 1]);
        } else if i == b {
            assert(r[i] == '.');
        } else {
            assert(r[i] == ext[i - b - 1]);
        }
    }
}

/// Without backslashes, both kinds of machine find the same components.
proof fn lemma_same_components(path: Seq<char>, from: int, end: int)
    requires
        0 <= from <= end <= path.len(),
        !path.contains('\\'),
    ensures
        component_start(true, path, from, end) == component_start(false, path, from, end),
        last_end(true, path, from, end) == last_end(false, path, from, end),
    decreases end - from,
{
    if end > from {
        assert(path.contains(path[end - 1]));
        lemma_same_components(path, from, end - 1);
        lemma_component(false, path, from, end);
        let start = component_start(false, path, from, end);
        if says_nothing(path, start, end) {
            lemma_same_components(path, from, end_before(from, start));
        }
    }
}

/// A portable report path leads to the same report on every machine.
pub proof fn law_portable_paths_mean_the_same(report: Seq<char>, s: Seq<char>)
    requires
        is_portable(report),
    ensures
        report_path_for(true, report, s) == report_path_for(false, report, s),
{
    let from = body_start(false, report);
    if report.len() > 0 {
        assert(report.contains(report[0]));
    }
    if report.len() > 1 {
        assert(report.contains(report[1]));
    }
    assert(body_start(true, report) == from);
    lemma_same_components(report, from, report.len() as int);
    lemma_last_end(false, report, from, report.len() as int);
    let end = last_end(false, report, from, report.len() as int);
    lemma_same_components(report, from, end);
    lemma_component(false, report, from, end);
    let start = component_start(false, report, from, end);
    lemma_same_components(report, from, end_before(from, start));
    lemma_last_end(false, report, from, end_before(from, start));
    assert(parent(true, report) == parent(false, report));
    assert(file_name(true, report) == file_name(false, report));
    lemma_file_name(false, report);
    let name = file_name(false, report);
    lemma_report_name(name, s);
    lemma_report_name_is_no_drive(name, s);
    let dir = match parent(false, report) {
        Some(d) => d,
        None => "."@,
    };
    reveal_strlit(".");
    let r = report_name(name, s);
    if let Some(n) = name {
        assert(report.contains(n[0]));
    }
    assert(r[0] != '\\');
    if dir.len() > 0 && parent(false, report) is Some {
        assert(report.contains(dir.last())) by {
            assert(dir.last() == report[dir.len() - 1]);
        }
    }
    if dir.len() >= 2 && parent(false, report) is Some {
        assert(dir[0] == report[0] && dir[1] == report[1]);
    }
    assert(prefix_end(true, dir) == 0);
}

/// The reports on two captures of one directory go to different files, on either kind of machine.
pub proof fn law_reports_are_kept_apart(
    backslash: bool,
    report: Seq<char>,
    a: Seq<char>,
    b: Seq<char>,
)
    requires
        is_otlp_name(a),
        is_otlp_name(b),
        a != b,
    ensures
        report_path_for(backslash, report, source_stem(a)) != report_path_for(
            backslash,
            report,
            source_stem(b),
        ),
{
    let s = source_stem(a);
    let t = source_stem(b);
    lemma_source_stem(a);
    lemma_source_stem(b);
    assert(s != t);
    law_different_stems_different_reports(backslash, report, s, t);
}

/// Different stems lead to different report paths, on either kind of machine.
pub proof fn law_different_stems_different_reports(
    backslash: bool,
    report: Seq<char>,
    s: Seq<char>,
    t: Seq<char>,
)
    requires
        s != t,
    ensures
        report_path_for(backslash, report, s) != report_path_for(backslash, report, t),
{
    lemma_file_name(backslash, report);
    law_different_stems_different_paths(
        backslash,
        glue_for(backslash, report),
        parent(backslash, report),
        file_name(backslash, report),
        s,
        t,
    );
}

/// Different stems lead to different report paths, whatever the parent and the name are.
pub proof fn law_different_stems_different_paths(
    backslash: bool,
    glue: char,
    dir: Option<Seq<char>>,
    name: Option<Seq<char>>,
    s: Seq<char>,
    t: Seq<char>,
)
    requires
        name matches Some(n) ==> n.len() > 0,
        s != t,
    ensures
        report_path_from(backslash, glue, dir, name, s) != report_path_from(
            backslash,
            glue,
            dir,
            name,
            t,
        ),
{
    let base = match name {
        Some(n) => stem(n),
        None => "verdict"@,
    };
    let ext = match name {
        Some(n) => match extension(n) {
            Some(e) => e,
            None => "html"@,
        },
        None => "html"@,
    };
    let d = match dir {
        Some(d) => d,
        None => "."@,
    };
    reveal_strlit("-");
    reveal_strlit("verdict");
    if let Some(n) = name {
        lemma_last_dot(n, n.len() as int);
    }
    let head = base + "-"@;
    let tail = "."@ + ext;
    let x = report_name(name, s);
    let y = report_name(name, t);
    assert(head.len() >= 2);
    assert(x =~= head + s + tail);
    assert(y =~= head + t + tail);
    assert(x[0] == head[0] && y[0] == head[0]);
    assert(x[1] == head[1] && y[1] == head[1]);
    assert(is_drive(x) == is_drive(y));
    let front = front_of(backslash, glue, d, x);
    assert(front == front_of(backslash, glue, d, y));
    lemma_joined(backslash, glue, d, x);
    lemma_joined(backslash, glue, d, y);
    assert(front + x =~= (front + head) + s + tail);
    assert(front + y =~= (front + head) + t + tail);
    lemma_cancel(front + head, s, t, tail);
}

/// What a name is put behind.
spec fn front_of(backslash: bool, glue: char, dir: Seq<char>, name: Seq<char>) -> Seq<char> {
    if name.len() > 0 && separates(backslash, name[0]) {
        dir.take(prefix_end(backslash, dir))
    } else if backslash && is_drive(name) {
        Seq::empty()
    } else if dir.len() == prefix_end(backslash, dir) || separates(backslash, dir.last()) {
        dir
    } else {
        dir.push(glue)
    }
}

proof fn lemma_joined(backslash: bool, glue: char, dir: Seq<char>, name: Seq<char>)
    ensures
        joined(backslash, glue, dir, name) == front_of(backslash, glue, dir, name) + name,
{
    assert(Seq::<char>::empty() + name =~= name);
}

/// What stands between the same texts can be told.
proof fn lemma_cancel(front: Seq<char>, s: Seq<char>, t: Seq<char>, tail: Seq<char>)
    requires
        s != t,
    ensures
        front + s + tail != front + t + tail,
{
    let u = front + s + tail;
    let v = front + t + tail;
    let n = front.len() as int;
    assert(u.len() == n + s.len() + tail.len());
    assert(v.len() == n + t.len() + tail.len());
    assert(s =~= u.subrange(n, n + s.len()));
    assert(t =~= v.subrange(n, n + t.len()));
}

/// A plain name put into a directory has that directory for its parent.
proof fn lemma_parent_of_joined(backslash: bool, glue: char, dir: Seq<char>, name: Seq<char>)
    requires
        separates(backslash, glue),
        name.len() >= 2,
        forall|i: int| 0 <= i < name.len() ==> !separates(backslash, #[trigger] name[i]),
        backslash ==> !is_drive(name),
        ({
            let path = joined(backslash, glue, dir, name);
            let from = body_start(backslash, path);
            &&& 0 <= from <= dir.len()
            &&& last_end(backslash, path, from, dir.len() as int) == dir.len()
            &&& path.len() == dir.len() + name.len() ==> dir.len() == from
        }),
    ensures
        parent(backslash, joined(backslash, glue, dir, name)) == Some(dir),
{
    let path = joined(backslash, glue, dir, name);
    let from = body_start(backslash, path);
    let n = path.len() as int;
    let start = n - name.len();
    assert forall|i: int| start <= i < n implies !separates(backslash, #[trigger] path[i]) by {
        assert(path[i] == name[i - start]);
    }
    if start > dir.len() {
        assert(path[start - 1] == glue);
    }
    lemma_component_at(backslash, path, from, start, n);
    assert(last_end(backslash, path, from, n) == n);
    assert(path.take(dir.len() as int) =~= dir);
}

/// The report on one of several files goes into the directory of the report path, or into the
/// working directory where it has none. Left out are stems that hold a separator, paths to a
/// server where a backslash separates, and names there that are taken for a drive.
pub proof fn law_reports_stay_beside(backslash: bool, report: Seq<char>, s: Seq<char>)
    requires
        forall|i: int| 0 <= i < s.len() ==> !separates(backslash, #[trigger] s[i]),
        backslash ==> !names_a_server(report),
        backslash ==> (file_name(backslash, report) matches Some(n) ==> !is_drive(n)),
    ensures
        parent(backslash, report_path_for(backslash, report, s)) == Some(
            match parent(backslash, report) {
                Some(d) => d,
                None => "."@,
            },
        ),
{
    reveal_strlit(".");
    let name = file_name(backslash, report);
    let glue = glue_for(backslash, report);
    let r = report_name(name, s);
    lemma_file_name(backslash, report);
    lemma_report_name(name, s);
    lemma_report_name_is_plain(backslash, name, s);
    if backslash {
        lemma_report_name_is_no_drive(name, s);
    }
    let dir = match parent(backslash, report) {
        Some(d) => d,
        None => "."@,
    };
    let path = joined(backslash, glue, dir, r);
    let p = prefix_end(backslash, report);
    let from = body_start(backslash, report);
    assert(!separates(backslash, r[0]));
    assert(!separates(backslash, r[1]));
    lemma_last_end(backslash, report, from, report.len() as int);
    let end = last_end(backslash, report, from, report.len() as int);
    lemma_component(backslash, report, from, end);
    let start = component_start(backslash, report, from, end);
    let cut = end_before(from, start);
    lemma_last_end(backslash, report, from, cut);
    let e = dir.len() as int;
    assert(path == report_path_for(backslash, report, s));
    assert(path.len() > dir.len());
    assert forall|i: int| 0 <= i < e implies path[i] == dir[i] by {}
    if parent(backslash, report) is Some {
        assert forall|i: int| 0 <= i < e implies path[i] == report[i] by {
            assert(path[i] == dir[i]);
        }
        if e > from {
            lemma_component(backslash, report, from, e);
            let first = component_start(backslash, report, from, e);
            assert forall|i: int| first <= i < e implies !separates(
                backslash,
                #[trigger] path[i],
            ) by {
                assert(path[i] == report[i]);
            }
            if first > from {
                assert(path[first - 1] == report[first - 1]);
            }
            lemma_component_at(backslash, path, from, first, e);
            assert(!says_nothing(report, first, e));
            assert(path[first] == report[first]);
            assert(body_start(backslash, path) == from);
            assert(last_end(backslash, path, from, e) == e);
            assert(!separates(backslash, report[e - 1]));
        }
    }
    lemma_parent_of_joined(backslash, glue, dir, r);
}

/// A capture's name is its stem and an ending, and the stem tells which of two endings it is.
proof fn lemma_source_stem(name: Seq<char>)
    requires
        is_otlp_name(name),
    ensures
        name == source_stem(name) + if ends_in_proto(source_stem(name)) {
            ".json"@
        } else {
            ".otlp.json"@
        },
{
    reveal_strlit(".otlp.json");
    reveal_strlit(".otlp.proto.json");
    reveal_strlit(".otlp.proto");
    reveal_strlit(".otlp");
    reveal_strlit(".json");
    let n = name.len() as int;
    let base = name.take(n - 10);
    if ".otlp.json"@.is_suffix_of(name) {
        let ending = name.subrange(n - 10, n);
        assert(ending =~= ".otlp.json"@);
        assert(name =~= base + ending);
        assert(name[n - 5] == ending[5] && name[n - 4] == ending[6]);
        assert(name[n - 3] == ending[7] && name[n - 2] == ending[8]);
        assert(name[n - 1] == ending[9]);
        if ends_in_proto(base) {
            lemma_json_stem(name);
            let s = source_stem(name);
            assert(s.subrange(n - 10, n - 5) =~= ".otlp"@) by {
                assert forall|i: int| 0 <= i < 5 implies s[n - 10 + i] == ".otlp"@[i] by {
                    assert(s[n - 10 + i] == ending[i]);
                }
            }
            assert(s.take(s.len() - 5) =~= base);
            assert(ends_in_proto(s));
        }
    } else {
        let ending = name.subrange(n - 16, n);
        assert(ending =~= ".otlp.proto.json"@);
        assert(name[n - 5] == ending[11] && name[n - 4] == ending[12]);
        assert(name[n - 3] == ending[13] && name[n - 2] == ending[14]);
        assert(name[n - 1] == ending[15]);
        lemma_json_stem(name);
        let s = source_stem(name);
        assert(s.subrange(n - 16, n - 5) =~= ".otlp.proto"@) by {
            assert forall|i: int| 0 <= i < 11 implies s[n - 16 + i] == ".otlp.proto"@[i] by {
                assert(s[n - 16 + i] == ending[i]);
            }
        }
        assert(ends_in_proto(s));
    }
}

/// The stem of a name that ends in `.json`.
proof fn lemma_json_stem(name: Seq<char>)
    requires
        name.len() > 5,
        name[name.len() - 5] == '.',
        name[name.len() - 4] == 'j',
        name[name.len() - 3] == 's',
        name[name.len() - 2] == 'o',
        name[name.len() - 1] == 'n',
    ensures
        stem(name) == name.take(name.len() - 5),
        name == stem(name) + ".json"@,
{
    reveal_strlit(".json");
    reveal_with_fuel(last_dot, 6);
    assert(last_dot(name, name.len() as int) == name.len() - 5);
    assert(name =~= name.take(name.len() - 5) + ".json"@);
}

/// The last dot of a name is where it stands.
proof fn lemma_last_dot_at(name: Seq<char>, dot: int, end: int)
    requires
        0 < dot < end <= name.len(),
        name[dot] == '.',
        forall|i: int| dot < i < end ==> #[trigger] name[i] != '.',
    ensures
        last_dot(name, end) == dot,
    decreases end,
{
    if end > dot + 1 {
        lemma_last_dot_at(name, dot, end - 1);
    }
}

proof fn lemma_no_dot(name: Seq<char>, end: int)
    requires
        0 <= end <= name.len(),
        forall|i: int| 0 <= i < end ==> #[trigger] name[i] != '.',
    ensures
        last_dot(name, end) == 0,
    decreases end,
{
    if end > 1 {
        lemma_no_dot(name, end - 1);
    }
}

/// A name is its stem, a dot and its extension, whatever the stem is.
pub proof fn law_names_have_a_stem_and_an_extension(base: Seq<char>, ext: Seq<char>)
    requires
        base.len() > 0,
        !ext.contains('.'),
    ensures
        stem(base + "."@ + ext) == base,
        extension(base + "."@ + ext) == Some(ext),
        !base.contains('.') ==> stem(base) == base && extension(base) is None,
{
    reveal_strlit(".");
    let name = base + "."@ + ext;
    let dot = base.len() as int;
    assert forall|i: int| dot < i < name.len() implies #[trigger] name[i] != '.' by {
        assert(name[i] == ext[i - dot - 1]);
        assert(ext.contains(ext[i - dot - 1]));
    }
    lemma_last_dot_at(name, dot, name.len() as int);
    assert(name.take(dot) =~= base);
    assert(name.skip(dot + 1) =~= ext);
    if !base.contains('.') {
        assert forall|i: int| 0 <= i < base.len() implies #[trigger] base[i] != '.' by {
            assert(base.contains(base[i]));
        }
        lemma_no_dot(base, base.len() as int);
    }
}

/// A file in a directory has that directory for its parent and its own name for its name.
proof fn lemma_in_directory(dir: Seq<char>, name: Seq<char>)
    requires
        dir.len() > 0,
        dir.last() != '/',
        dir.last() == '.' ==> dir.len() >= 2 && dir[dir.len() - 2] != '/',
        name.len() > 0,
        !name.contains('/'),
        name != "."@,
        name != ".."@,
    ensures
        parent(false, dir + "/"@ + name) == Some(dir),
        file_name(false, dir + "/"@ + name) == Some(name),
{
    reveal_strlit("/");
    reveal_strlit(".");
    assert(name.len() == 1 && name[0] == '.' ==> name =~= "."@);
    let path = dir + "/"@ + name;
    let from = body_start(false, path);
    let d = dir.len() as int;
    let n = path.len() as int;
    if dir.len() > 1 {
        assert(path[d - 2] == dir[d - 2]);
    }
    assert(path[0] == dir[0]);
    assert(path[d] == '/');
    assert(path[d - 1] == dir.last());
    if dir.len() > 1 {
        assert(path[1] == dir[1]);
    }
    assert(from < d);
    assert forall|i: int| d + 1 <= i < n implies !separates(false, #[trigger] path[i]) by {
        assert(path[i] == name[i - d - 1]);
        assert(name.contains(name[i - d - 1]));
    }
    lemma_component_at(false, path, from, d + 1, n);
    assert(last_end(false, path, from, n) == n);
    lemma_component(false, path, from, d);
    assert(last_end(false, path, from, d) == d);
    assert(path.take(d) =~= dir);
    assert(path.subrange(d + 1, n) =~= name);
}

/// A file in no directory has the empty path for its parent.
proof fn lemma_in_no_directory(name: Seq<char>)
    requires
        name.len() > 0,
        !name.contains('/'),
        name != "."@,
        name != ".."@,
    ensures
        parent(false, name) == Some(Seq::<char>::empty()),
        file_name(false, name) == Some(name),
{
    reveal_strlit(".");
    let n = name.len() as int;
    assert(name.len() == 1 && name[0] == '.' ==> name =~= "."@);
    assert(name.contains(name[0]));
    if name.len() > 1 {
        assert(name.contains(name[1]));
    }
    assert(body_start(false, name) == 0);
    assert forall|i: int| 0 <= i < n implies !separates(false, #[trigger] name[i]) by {
        assert(name.contains(name[i]));
    }
    lemma_component_at(false, name, 0, 0, n);
    assert(last_end(false, name, 0, n) == n);
    assert(name.take(0) =~= Seq::<char>::empty());
    assert(name.subrange(0, n) =~= name);
}

/// The report on one of several files is named after the report path and the file: its stem goes
/// behind that of the report path, in full, and directory and extension stay.
pub proof fn law_reports_are_named_after_both(
    dir: Seq<char>,
    base: Seq<char>,
    ext: Seq<char>,
    s: Seq<char>,
)
    requires
        dir.len() > 0,
        dir.last() != '/',
        dir.last() == '.' ==> dir.len() >= 2 && dir[dir.len() - 2] != '/',
        base.len() > 0,
        ext.len() > 0,
        !base.contains('/'),
        !ext.contains('/'),
        !ext.contains('.'),
    ensures
        report_path_for(false, dir + "/"@ + (base + "."@ + ext), s) == dir + "/"@ + (base + "-"@ + s
            + "."@ + ext),
        report_path_for(false, base + "."@ + ext, s) == base + "-"@ + s + "."@ + ext,
{
    reveal_strlit("/");
    reveal_strlit(".");
    reveal_strlit("..");
    let name = base + "."@ + ext;
    assert(!name.contains('/')) by {
        if name.contains('/') {
            let k = name.index_of('/');
            if k < base.len() {
                assert(base[k] == '/');
            } else if k > base.len() {
                assert(ext[k - base.len() - 1] == '/');
            }
        }
    }
    assert(name.len() >= 3);
    lemma_in_directory(dir, name);
    lemma_in_no_directory(name);
    law_names_have_a_stem_and_an_extension(base, ext);
    let r = base + "-"@ + s + "."@ + ext;
    assert(report_name(Some(name), s) == r);
    assert(base.contains(base[0]));
    assert(r[0] == base[0]);
    assert(joined(false, '/', dir, r) =~= dir + "/"@ + r);
    assert(joined(false, '/', Seq::empty(), r) =~= r);
}

/// What stands for a capture is its name without the ending, in full.
pub proof fn law_captures_are_named_in_full(base: Seq<char>)
    ensures
        !ends_in_proto(base) ==> source_stem(base + ".otlp.json"@) == base,
        ends_in_proto(base) ==> source_stem(base + ".otlp.json"@) == base + ".otlp"@,
        source_stem(base + ".otlp.proto.json"@) == base + ".otlp.proto"@,
        ends_in_proto(base + ".otlp.proto"@),
        ends_in_proto(base + ".otlp"@) == ends_in_proto(base),
        ends_in_proto(base) ==> base.len() >= 11,
{
    reveal_strlit(".otlp.json");
    reveal_strlit(".otlp.proto.json");
    reveal_strlit(".otlp.proto");
    reveal_strlit(".otlp");
    let b = base.len() as int;
    let one = base + ".otlp.json"@;
    assert(one.subrange(b, b + 10) =~= ".otlp.json"@);
    assert(one.take(b) =~= base);
    lemma_json_stem(one);
    assert(one.take(b + 5) =~= base + ".otlp"@);
    let two = base + ".otlp.proto.json"@;
    lemma_json_stem(two);
    assert(two.take(b + 11) =~= base + ".otlp.proto"@);
    assert(!".otlp.json"@.is_suffix_of(two)) by {
        assert(two.subrange(b + 6, b + 16)[1] == 'r' || two.subrange(b + 6, b + 16)[1] == 'p');
    }
    let three = base + ".otlp.proto"@;
    assert(three.subrange(b, b + 11) =~= ".otlp.proto"@);
    let four = base + ".otlp"@;
    assert(four.subrange(b, b + 5) =~= ".otlp"@);
    assert(four.take(b) =~= base);
    assert(!".otlp.proto"@.is_suffix_of(four)) by {
        if ".otlp.proto"@.is_suffix_of(four) {
            assert(four.subrange(b - 6, b + 5)[10] == four[b + 4]);
        }
    }
    lemma_proto_is_long(base);
}

proof fn lemma_proto_is_long(name: Seq<char>)
    ensures
        ends_in_proto(name) ==> name.len() >= 11,
    decreases name.len(),
{
    reveal_strlit(".otlp.proto");
    if name.len() >= 5 && ".otlp"@.is_suffix_of(name) {
        lemma_proto_is_long(name.take(name.len() - 5));
    }
}

/// A file in a directory has that directory for its parent, where a backslash separates too.
proof fn lemma_in_directory_either_way(dir: Seq<char>, c: char, name: Seq<char>)
    requires
        dir.len() > 0,
        !separates(true, dir.last()),
        dir.last() != '.',
        dir.last() != ':',
        separates(true, c),
        name.len() >= 2,
        forall|i: int| 0 <= i < name.len() ==> !separates(true, #[trigger] name[i]),
        name != ".."@,
    ensures
        parent(true, dir.push(c) + name) == Some(dir),
        file_name(true, dir.push(c) + name) == Some(name),
{
    let path = dir.push(c) + name;
    let from = body_start(true, path);
    let d = dir.len() as int;
    let n = path.len() as int;
    assert(path[0] == dir[0]);
    assert(path[d] == c);
    assert(path[d - 1] == dir.last());
    if dir.len() > 1 {
        assert(path[1] == dir[1]);
    }
    if dir.len() > 2 {
        assert(path[2] == dir[2]);
    }
    if dir.len() > 3 {
        assert(path[3] == dir[3]);
    }
    assert(from < d);
    assert forall|i: int| d + 1 <= i < n implies !separates(true, #[trigger] path[i]) by {
        assert(path[i] == name[i - d - 1]);
    }
    lemma_component_at(true, path, from, d + 1, n);
    assert(last_end(true, path, from, n) == n);
    lemma_component(true, path, from, d);
    assert(last_end(true, path, from, d) == d);
    assert(path.take(d) =~= dir);
    assert(path.subrange(d + 1, n) =~= name);
}

/// Where a backslash separates, the report on one of several files is named after the report path
/// and the file just so, and its path is continued with the separator that it is written with: a
/// backslash if it holds one, and a slash otherwise.
pub proof fn law_reports_keep_their_separator(
    dir: Seq<char>,
    base: Seq<char>,
    ext: Seq<char>,
    s: Seq<char>,
)
    requires
        dir.len() > 0,
        !separates(true, dir.last()),
        dir.last() != '.',
        dir.last() != ':',
        base.len() > 0,
        ext.len() > 0,
        !base.contains(':'),
        forall|i: int| 0 <= i < base.len() ==> !separates(true, #[trigger] base[i]),
        forall|i: int| 0 <= i < ext.len() ==> !separates(true, #[trigger] ext[i]),
        !ext.contains('.'),
    ensures
        report_path_for(true, dir.push('\\') + (base + "."@ + ext), s) == dir.push('\\') + (base
            + "-"@ + s + "."@ + ext),
        dir.contains('\\') ==> report_path_for(true, dir.push('/') + (base + "."@ + ext), s)
            == dir.push('\\') + (base + "-"@ + s + "."@ + ext),
        !dir.contains('\\') ==> report_path_for(true, dir.push('/') + (base + "."@ + ext), s)
            == dir.push('/') + (base + "-"@ + s + "."@ + ext),
{
    reveal_strlit(".");
    reveal_strlit("..");
    reveal_strlit("-");
    let name = base + "."@ + ext;
    let d = dir.len() as int;
    assert forall|i: int| 0 <= i < name.len() implies !separates(true, #[trigger] name[i]) by {
        if i < base.len() {
            assert(name[i] == base[i]);
        } else if i > base.len() {
            assert(name[i] == ext[i - base.len() - 1]);
        }
    }
    assert(name.len() >= 3);
    lemma_in_directory_either_way(dir, '\\', name);
    lemma_in_directory_either_way(dir, '/', name);
    law_names_have_a_stem_and_an_extension(base, ext);
    let r = base + "-"@ + s + "."@ + ext;
    assert(report_name(Some(name), s) == r);
    assert(r[0] == base[0]);
    assert(!is_drive(r)) by {
        if base.len() > 1 {
            assert(r[1] == base[1]);
            assert(base.contains(base[1]));
        } else {
            assert(r[1] == '-');
        }
    }
    let one = dir.push('\\') + name;
    assert(one[d] == '\\');
    let two = dir.push('/') + name;
    if dir.contains('\\') {
        let k = dir.index_of('\\');
        assert(two[k] == '\\');
    } else if two.contains('\\') {
        let k = two.index_of('\\');
        if k < d {
            assert(dir[k] == '\\');
        } else if k > d {
            assert(name[k - d - 1] == '\\');
        }
    }
}

/// A report path whose name has no extension leads to reports with the extension `html`, and a
/// dot at the front of a name begins no extension.
pub proof fn law_html_stands_in_for_an_extension(dir: Seq<char>, name: Seq<char>, s: Seq<char>)
    requires
        dir.len() > 0,
        dir.last() != '/',
        dir.last() == '.' ==> dir.len() >= 2 && dir[dir.len() - 2] != '/',
        name.len() > 0,
        !name.contains('/'),
        name != "."@,
        !name.skip(1).contains('.'),
    ensures
        report_path_for(false, dir + "/"@ + name, s) == dir + "/"@ + (name + "-"@ + s + ".html"@),
        report_path_for(false, name, s) == name + "-"@ + s + ".html"@,
{
    reveal_strlit("/");
    reveal_strlit(".");
    reveal_strlit("..");
    reveal_strlit("html");
    reveal_strlit(".html");
    assert(".html"@ =~= "."@ + "html"@);
    assert(name != ".."@) by {
        if name == ".."@ {
            assert(name.skip(1)[0] == '.');
        }
    }
    assert forall|i: int| 1 <= i < name.len() implies #[trigger] name[i] != '.' by {
        assert(name.skip(1)[i - 1] == name[i]);
    }
    lemma_dot_in_front(name, name.len() as int);
    lemma_in_directory(dir, name);
    lemma_in_no_directory(name);
    let r = name + "-"@ + s + ".html"@;
    assert(report_name(Some(name), s) =~= r);
    assert(name.contains(name[0]));
    assert(r[0] == name[0]);
    assert(joined(false, '/', dir, r) =~= dir + "/"@ + r);
    assert(joined(false, '/', Seq::empty(), r) =~= r);
}

proof fn lemma_dot_in_front(name: Seq<char>, end: int)
    requires
        0 <= end <= name.len(),
        forall|i: int| 1 <= i < end ==> #[trigger] name[i] != '.',
    ensures
        last_dot(name, end) == 0,
    decreases end,
{
    if end > 1 {
        lemma_dot_in_front(name, end - 1);
    }
}

/// A file in the working directory, written with a leading `.`, has `.` for its parent.
proof fn lemma_in_working_directory(name: Seq<char>)
    requires
        name.len() > 0,
        !name.contains('/'),
        name != "."@,
        name != ".."@,
    ensures
        parent(false, "./"@ + name) == Some("."@),
        file_name(false, "./"@ + name) == Some(name),
{
    reveal_strlit("./");
    reveal_strlit(".");
    let n = name.len() as int;
    let path = "./"@ + name;
    assert(name.len() == 1 && name[0] == '.' ==> name =~= "."@);
    assert(path[0] == '.' && path[1] == '/');
    assert forall|i: int| 2 <= i < n + 2 implies !separates(false, #[trigger] path[i]) by {
        assert(path[i] == name[i - 2]);
        assert(name.contains(name[i - 2]));
    }
    assert(body_start(false, path) == 1);
    lemma_component_at(false, path, 1, 2, n + 2);
    assert(last_end(false, path, 1, n + 2) == n + 2);
    assert(path.take(1) =~= "."@);
    assert(path.subrange(2, n + 2) =~= name);
}

/// A file in the root has the root for its parent.
proof fn lemma_in_root(name: Seq<char>)
    requires
        name.len() > 0,
        !name.contains('/'),
        name != "."@,
        name != ".."@,
    ensures
        parent(false, "/"@ + name) == Some("/"@),
        file_name(false, "/"@ + name) == Some(name),
{
    reveal_strlit("/");
    reveal_strlit(".");
    let n = name.len() as int;
    let path = "/"@ + name;
    assert(name.len() == 1 && name[0] == '.' ==> name =~= "."@);
    assert(path[0] == '/');
    assert forall|i: int| 1 <= i < n + 1 implies !separates(false, #[trigger] path[i]) by {
        assert(path[i] == name[i - 1]);
        assert(name.contains(name[i - 1]));
    }
    assert(body_start(false, path) == 1);
    lemma_component_at(false, path, 1, 1, n + 1);
    assert(last_end(false, path, 1, n + 1) == n + 1);
    assert(path.take(1) =~= "/"@);
    assert(path.subrange(1, n + 1) =~= name);
}

/// A report path in the working directory or in the root leads to reports there.
pub proof fn law_reports_stay_in_the_working_directory_and_in_the_root(
    base: Seq<char>,
    ext: Seq<char>,
    s: Seq<char>,
)
    requires
        base.len() > 0,
        ext.len() > 0,
        !base.contains('/'),
        !ext.contains('/'),
        !ext.contains('.'),
    ensures
        report_path_for(false, "./"@ + (base + "."@ + ext), s) == "./"@ + (base + "-"@ + s + "."@
            + ext),
        report_path_for(false, "/"@ + (base + "."@ + ext), s) == "/"@ + (base + "-"@ + s + "."@
            + ext),
{
    reveal_strlit("/");
    reveal_strlit("./");
    reveal_strlit(".");
    reveal_strlit("..");
    let name = base + "."@ + ext;
    assert(!name.contains('/')) by {
        if name.contains('/') {
            let k = name.index_of('/');
            if k < base.len() {
                assert(base[k] == '/');
            } else if k > base.len() {
                assert(ext[k - base.len() - 1] == '/');
            }
        }
    }
    assert(name.len() >= 3);
    law_names_have_a_stem_and_an_extension(base, ext);
    lemma_in_working_directory(name);
    lemma_in_root(name);
    let r = base + "-"@ + s + "."@ + ext;
    assert(report_name(Some(name), s) == r);
    assert(base.contains(base[0]));
    assert(r[0] == base[0]);
    assert(joined(false, '/', "."@, r) =~= "./"@ + r);
    assert(joined(false, '/', "/"@, r) =~= "/"@ + r);
}

/// A report path without a name leads to reports whose names begin with `verdict`: beside the
/// last step of a path that ends in `..`, and in the working directory where the path is empty,
/// `.` or the root.
pub proof fn law_verdict_stands_in_for_a_name(dir: Seq<char>, s: Seq<char>)
    requires
        dir.len() > 0,
        dir.last() != '/',
        dir.last() == '.' ==> dir.len() >= 2 && dir[dir.len() - 2] != '/',
    ensures
        report_path_for(false, dir + "/.."@, s) == dir + "/"@ + ("verdict-"@ + s + ".html"@),
        report_path_for(false, ""@, s) == "./"@ + ("verdict-"@ + s + ".html"@),
        report_path_for(false, "/"@, s) == "./"@ + ("verdict-"@ + s + ".html"@),
        report_path_for(false, "."@, s) == "verdict-"@ + s + ".html"@,
{
    reveal_strlit("");
    reveal_strlit("/");
    reveal_strlit("./");
    reveal_strlit("/..");
    reveal_strlit(".");
    reveal_strlit("..");
    reveal_strlit("html");
    reveal_strlit(".html");
    reveal_strlit("verdict");
    reveal_strlit("verdict-");
    reveal_strlit("-");
    let r = "verdict-"@ + s + ".html"@;
    assert(".html"@ =~= "."@ + "html"@);
    assert("verdict-"@ =~= "verdict"@ + "-"@);
    assert(report_name(None, s) =~= r);
    assert(r[0] == 'v');
    let path = dir + "/.."@;
    let d = dir.len() as int;
    assert(path[0] == dir[0] && path[d - 1] == dir.last());
    assert(path[d] == '/' && path[d + 1] == '.' && path[d + 2] == '.');
    if dir.len() > 1 {
        assert(path[1] == dir[1] && path[d - 2] == dir[d - 2]);
    }
    let from = body_start(false, path);
    assert(from < d);
    lemma_component_at(false, path, from, d + 1, d + 3);
    assert(last_end(false, path, from, d + 3) == d + 3);
    lemma_component(false, path, from, d);
    assert(last_end(false, path, from, d) == d);
    assert(path.take(d) =~= dir);
    assert(path.subrange(d + 1, d + 3) =~= ".."@);
    assert(joined(false, '/', dir, r) =~= dir + "/"@ + r);
    assert(joined(false, '/', "."@, r) =~= "./"@ + r);
    assert("."@.take(0) =~= Seq::<char>::empty());
    assert(joined(false, '/', Seq::empty(), r) =~= r);
    assert(body_start(false, ""@) == 0 && body_start(false, "/"@) == 1);
    assert(body_start(false, "."@) == 1);
}

/// The components of a path are found by what stands in front of their ends alone.
proof fn lemma_front_decides(backslash: bool, a: Seq<char>, b: Seq<char>, from: int, end: int)
    requires
        0 <= from <= end <= a.len(),
        end <= b.len(),
        forall|i: int| 0 <= i < end ==> a[i] == #[trigger] b[i],
    ensures
        component_start(backslash, a, from, end) == component_start(backslash, b, from, end),
        last_end(backslash, a, from, end) == last_end(backslash, b, from, end),
    decreases end - from,
{
    if end > from {
        assert(a[end - 1] == b[end - 1]);
        lemma_front_decides(backslash, a, b, from, end - 1);
        lemma_component(backslash, a, from, end);
        let start = component_start(backslash, a, from, end);
        if start < end {
            assert(a[start] == b[start]);
        }
        if says_nothing(a, start, end) {
            lemma_front_decides(backslash, a, b, from, end_before(from, start));
        }
    }
}

/// Slashes at the end of a path, and a `.` behind one, say nothing: parent, name and report path
/// are the same with them.
pub proof fn law_slashes_and_dots_at_the_end_say_nothing(path: Seq<char>, s: Seq<char>)
    requires
        path.len() > 0,
    ensures
        parent(false, path + "/"@) == parent(false, path),
        file_name(false, path + "/"@) == file_name(false, path),
        report_path_for(false, path + "/"@, s) == report_path_for(false, path, s),
        parent(false, path + "/."@) == parent(false, path),
        file_name(false, path + "/."@) == file_name(false, path),
        report_path_for(false, path + "/."@, s) == report_path_for(false, path, s),
{
    reveal_strlit("/");
    reveal_strlit("/.");
    lemma_tail_says_nothing(path, path + "/"@);
    lemma_tail_says_nothing(path, path + "/."@);
}

proof fn lemma_tail_says_nothing(path: Seq<char>, longer: Seq<char>)
    requires
        path.len() > 0,
        longer == path + "/"@ || longer == path + "/."@,
    ensures
        parent(false, longer) == parent(false, path),
        file_name(false, longer) == file_name(false, path),
{
    reveal_strlit("/");
    reveal_strlit("/.");
    let n = path.len() as int;
    let m = longer.len() as int;
    let from = body_start(false, path);
    assert forall|i: int| 0 <= i < n implies path[i] == #[trigger] longer[i] by {}
    assert(longer[n] == '/');
    assert(longer[0] == path[0]);
    if n > 1 {
        assert(longer[1] == path[1]);
    }
    assert(body_start(false, longer) == from);
    assert(m == n + 2 ==> longer[n + 1] == '.');
    lemma_component_at(false, longer, from, n + 1, m);
    assert(says_nothing(longer, n + 1, m));
    assert(last_end(false, longer, from, m) == last_end(false, longer, from, n));
    lemma_front_decides(false, path, longer, from, n);
    lemma_last_end(false, path, from, n);
    let end = last_end(false, path, from, n);
    lemma_front_decides(false, path, longer, from, end);
    lemma_component(false, path, from, end);
    let start = component_start(false, path, from, end);
    lemma_front_decides(false, path, longer, from, end_before(from, start));
    lemma_last_end(false, path, from, end_before(from, start));
    assert(path.subrange(start, end) =~= longer.subrange(start, end));
    let e = last_end(false, path, from, end_before(from, start));
    assert(path.take(e) =~= longer.take(e));
    assert(path.take(0) =~= longer.take(0));
}

/// A drive is one ASCII letter and a colon, whatever comes behind them.
pub proof fn law_drives_are_letters(c: char, rest: Seq<char>, path: Seq<char>)
    ensures
        is_drive(seq![c, ':'] + rest) <==> 65 <= c as int <= 90 || 97 <= c as int <= 122,
        is_drive(path) ==> path == seq![path[0], ':'] + path.skip(2),
{
    let whole = seq![c, ':'] + rest;
    assert(whole[0] == c && whole[1] == ':');
    if is_drive(path) {
        assert(path =~= seq![path[0], ':'] + path.skip(2));
    }
}

/// A name from the root leaves the directory, and where there are drives keeps its drive; a name
/// with a drive leaves both; every other name goes behind the directory, with one separator
/// between them.
pub proof fn law_names_go_into_directories(
    glue: char,
    dir: Seq<char>,
    name: Seq<char>,
    rest: Seq<char>,
    letter: char,
)
    requires
        'a' <= letter <= 'z',
        name.len() > 0,
        !separates(true, name[0]),
        !is_drive(name),
        !is_drive(dir),
    ensures
        joined(false, glue, dir, seq!['/'] + rest) == seq!['/'] + rest,
        joined(true, glue, dir, seq!['\\'] + rest) == seq!['\\'] + rest,
        joined(true, glue, seq![letter, ':'] + dir, seq!['\\'] + rest) == seq![letter, ':', '\\']
            + rest,
        joined(true, glue, dir, seq![letter, ':'] + rest) == seq![letter, ':'] + rest,
        joined(true, glue, seq![letter, ':'], name) == seq![letter, ':'] + name,
        joined(false, glue, Seq::empty(), name) == name,
        joined(false, glue, dir.push('/'), name) == dir.push('/') + name,
        joined(true, glue, dir.push('\\'), name) == dir.push('\\') + name,
        dir.len() > 0 && !separates(true, dir.last()) ==> joined(false, glue, dir, name)
            == dir.push(glue) + name && joined(true, glue, dir, name) == dir.push(glue) + name,
{
    let one = seq!['/'] + rest;
    assert(one[0] == '/');
    assert(dir.take(0) + one =~= one);
    let two = seq!['\\'] + rest;
    assert(two[0] == '\\');
    assert(dir.take(0) + two =~= two);
    let drive = seq![letter, ':'];
    let there = drive + dir;
    assert(there[0] == letter && there[1] == ':');
    assert(there.take(2) =~= drive);
    assert(drive + two =~= seq![letter, ':', '\\'] + rest);
    let three = drive + rest;
    assert(three[0] == letter && three[1] == ':');
    assert(Seq::<char>::empty() + name =~= name);
    assert(dir.push('/').last() == '/');
    assert(dir.push('\\').last() == '\\');
}

/// A report path without backslashes and colons that names no server leads to one report for each
/// file on every machine: the path itself for a single file, and for one of several the path with
/// the file's stem put in front of the extension.
pub proof fn law_ordinary_report_paths_leave_no_choice(
    dir: Seq<char>,
    base: Seq<char>,
    ext: Seq<char>,
    s: Seq<char>,
    path: Seq<char>,
)
    requires
        dir.len() > 0,
        dir.last() != '/',
        dir.last() == '.' ==> dir.len() >= 2 && dir[dir.len() - 2] != '/',
        dir.len() >= 2 ==> !(dir[0] == '/' && dir[1] == '/'),
        base.len() > 0,
        ext.len() > 0,
        !base.contains('/'),
        !ext.contains('/'),
        !ext.contains('.'),
        forall|i: int| 0 <= i < dir.len() ==> #[trigger] dir[i] != '\\' && dir[i] != ':',
        forall|i: int| 0 <= i < base.len() ==> #[trigger] base[i] != '\\' && base[i] != ':',
        forall|i: int| 0 <= i < ext.len() ==> #[trigger] ext[i] != '\\' && ext[i] != ':',
    ensures
        is_report_path(dir + "/"@ + (base + "."@ + ext), None, path) <==> path == dir + "/"@ + (base
            + "."@ + ext),
        is_report_path(dir + "/"@ + (base + "."@ + ext), Some(s), path) <==> path == dir + "/"@ + (
        base + "-"@ + s + "."@ + ext),
{
    reveal_strlit("/");
    reveal_strlit(".");
    reveal_strlit("..");
    let name = base + "."@ + ext;
    let report = dir + "/"@ + name;
    let d = dir.len() as int;
    assert forall|i: int| 0 <= i < name.len() implies #[trigger] name[i] != '\\' && name[i] != ':'
        && name[i] != '/' by {
        if i < base.len() {
            assert(name[i] == base[i]);
            assert(base.contains(base[i]));
        } else if i > base.len() {
            assert(name[i] == ext[i - base.len() - 1]);
            assert(ext.contains(ext[i - base.len() - 1]));
        }
    }
    assert forall|i: int| 0 <= i < report.len() implies #[trigger] report[i] != '\\' && report[i]
        != ':' by {
        if i < d {
            assert(report[i] == dir[i]);
        } else if i > d {
            assert(report[i] == name[i - d - 1]);
        }
    }
    assert(!name.contains('/'));
    assert(!report.contains('\\'));
    assert(report[0] == dir[0]);
    if d > 1 {
        assert(report[1] == dir[1]);
    }
    assert(name.len() >= 3);
    lemma_in_directory(dir, name);
    assert(is_portable(report));
    law_reports_are_named_after_both(dir, base, ext, s);
    law_portable_paths_mean_the_same(report, s);
}

} // verus!
