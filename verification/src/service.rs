//! The configured projects of a serving process, the requests it takes and
//! the answers it gives.

use crate::mode::{Output, OutputMode, VisibilityFilter};
use crate::paths::file_name_of;
use crate::scan::option_text;
use crate::signature::lemma_join_step;
use crate::text::{chars_of, contains_text, has_prefix, join, starts_with, texts};
use vstd::prelude::*;
use vstd::string::*;

verus! {

/// One configured project.
#[derive(Debug, Clone, PartialEq, Eq)]
pub struct ProjectInfo {
    pub full_path: String,
    pub short_name: String,
    pub is_primary: bool,
}

/// A configured project as text.
pub struct ProjectInfoView {
    pub full_path: Seq<char>,
    pub short_name: Seq<char>,
    pub is_primary: bool,
}

impl View for ProjectInfo {
    type V = ProjectInfoView;

    open spec fn view(&self) -> ProjectInfoView {
        ProjectInfoView {
            full_path: self.full_path@,
            short_name: self.short_name@,
            is_primary: self.is_primary,
        }
    }
}

/// The projects of a list as text.
pub open spec fn info_views(ps: Seq<ProjectInfo>) -> Seq<ProjectInfoView> {
    ps.map_values(|p: ProjectInfo| p@)
}

/// The character that separates the parts of a path.
pub open spec fn slash() -> Seq<char> {
    seq!['/']
}

/// The short name of a project directory: the final component of its path,
/// or `unknown` where the path has none.
pub open spec fn short_name_of(file_name: Option<Seq<char>>) -> Seq<char> {
    match file_name {
        Some(n) => n,
        None => "unknown"@,
    }
}

/// The final components of a list, as text.
pub open spec fn option_texts(names: Seq<Option<String>>) -> Seq<Option<Seq<char>>> {
    names.map_values(|n: Option<String>| option_text(n))
}

/// The projects that a list of directories configures, given the final
/// component of each: one project for each directory, in their order, the
/// first of them primary.
pub open spec fn configured(
    dirs: Seq<Seq<char>>,
    file_names: Seq<Option<Seq<char>>>,
) -> Seq<ProjectInfoView> {
    Seq::new(
        dirs.len(),
        |i: int|
            ProjectInfoView {
                full_path: dirs[i],
                short_name: short_name_of(file_names[i]),
                is_primary: i == 0,
            },
    )
}

/// At least one project is configured, and the first alone is primary.
pub open spec fn first_is_primary(ps: Seq<ProjectInfoView>) -> bool {
    &&& ps.len() > 0
    &&& forall|i: int| 0 <= i < ps.len() ==> (#[trigger] ps[i]).is_primary == (i == 0)
}

/// Project `i` has the short name `name`.
pub open spec fn is_named(ps: Seq<ProjectInfoView>, name: Seq<char>, i: int) -> bool {
    0 <= i < ps.len() && ps[i].short_name == name
}

/// The last project with the short name `name`.
#[verifier::opaque]
pub open spec fn last_named(ps: Seq<ProjectInfoView>, name: Seq<char>) -> Option<int> {
    if exists|i: int| is_named(ps, name, i) {
        Some(
            choose|i: int|
                is_named(ps, name, i) && forall|j: int| i < j < ps.len() ==> !is_named(ps, name, j),
        )
    } else {
        None
    }
}

/// `name` begins with the short name of project `i` and a slash.
pub open spec fn is_below(ps: Seq<ProjectInfoView>, name: Seq<char>, i: int) -> bool {
    0 <= i < ps.len() && has_prefix(name, ps[i].short_name + slash())
}

/// The last project below whose short name `name` lies.
#[verifier::opaque]
pub open spec fn last_below(ps: Seq<ProjectInfoView>, name: Seq<char>) -> Option<int> {
    if exists|i: int| is_below(ps, name, i) {
        Some(
            choose|i: int|
                is_below(ps, name, i) && forall|j: int| i < j < ps.len() ==> !is_below(ps, name, j),
        )
    } else {
        None
    }
}

/// The directory that `name` means below project `i`: the project's path,
/// a slash, and what follows the short name and its slash in `name`.
pub open spec fn subdirectory(ps: Seq<ProjectInfoView>, name: Seq<char>, i: int) -> Seq<char> {
    ps[i].full_path + slash() + name.subrange(ps[i].short_name.len() as int + 1, name.len() as int)
}

/// `name` is the path of a configured project.
pub open spec fn is_listed(ps: Seq<ProjectInfoView>, name: Seq<char>) -> bool {
    exists|i: int| 0 <= i < ps.len() && (#[trigger] ps[i]).full_path == name
}

/// The error for a subdirectory that is not on disk.
pub open spec fn missing_directory_message(path: Seq<char>) -> Seq<char> {
    "Directory '"@ + path + "' does not exist"@
}

/// The line that lists one project among the known ones.
pub open spec fn project_line(p: ProjectInfoView) -> Seq<char> {
    "  '"@ + p.short_name + "' -> "@ + p.full_path
}

/// The error for a name that means no directory: the name, then the known
/// projects one to a line, then a hint on subdirectories.
pub open spec fn unknown_directory_message(ps: Seq<ProjectInfoView>, name: Seq<char>) -> Seq<char> {
    "Unknown directory: '"@ + name + "'. Available projects:\n"@ + join(
        ps.map_values(|p: ProjectInfoView| project_line(p)).push(
            "\nYou can also use subdirectories: 'project-name/subdir/path'"@,
        ),
        "\n"@,
    )
}

/// The path whose presence on disk decides what `name` means, if any does.
pub open spec fn probed_path(ps: Seq<ProjectInfoView>, name: Seq<char>) -> Option<Seq<char>> {
    if last_named(ps, name) is Some {
        None
    } else {
        match last_below(ps, name) {
            Some(i) => Some(subdirectory(ps, name, i)),
            None => if is_listed(ps, name) {
                None
            } else {
                Some(name)
            },
        }
    }
}

/// The directory that `name` means, where `exists` says whether the probed
/// path is on disk.
///
/// A short name means its project's path. A short name with a slash and
/// more means that subdirectory of the project, which must be on disk. The
/// path of a configured project means itself, and so does any other path that
/// is on disk. Of projects that share a short name the last one counts.
pub open spec fn resolution(ps: Seq<ProjectInfoView>, name: Seq<char>, exists: bool) -> Result<
    Seq<char>,
    Seq<char>,
> {
    match last_named(ps, name) {
        Some(i) => Ok(ps[i].full_path),
        None => match last_below(ps, name) {
            Some(i) => if exists {
                Ok(subdirectory(ps, name, i))
            } else {
                Err(missing_directory_message(subdirectory(ps, name, i)))
            },
            None => if is_listed(ps, name) || exists {
                Ok(name)
            } else {
                Err(unknown_directory_message(ps, name))
            },
        },
    }
}

/// The text of a result of strings.
pub open spec fn result_text(r: Result<String, String>) -> Result<Seq<char>, Seq<char>> {
    match r {
        Ok(s) => Ok(s@),
        Err(e) => Err(e@),
    }
}

/// The directories that a request is run on: the one it names, or all the
/// configured ones where it names none.
pub open spec fn requested_directories(
    ps: Seq<ProjectInfoView>,
    directory: Option<String>,
    exists: bool,
) -> Result<Seq<Seq<char>>, Seq<char>> {
    match directory {
        Some(d) => match resolution(ps, d@, exists) {
            Ok(p) => Ok(seq![p]),
            Err(e) => Err(e),
        },
        None => Ok(ps.map_values(|p: ProjectInfoView| p.full_path)),
    }
}

/// The literal of a slash is the path separator.
pub proof fn lemma_slash_literal()
    ensures
        "/"@ == slash(),
{
    reveal_strlit("/");
    assert("/"@ =~= slash());
}

/// The projects that a serving process was started with. It is made once
/// and only read afterwards.
pub struct ProjectConfig {
    projects: Vec<ProjectInfo>,
}

impl View for ProjectConfig {
    type V = Seq<ProjectInfoView>;

    closed spec fn view(&self) -> Seq<ProjectInfoView> {
        info_views(self.projects@)
    }
}

/// A request for a call graph.
#[derive(Debug, Clone, PartialEq, Eq)]
pub struct CallGraphRequest {
    pub root_function: String,
    pub public_only: Option<bool>,
    pub blacklist: Option<Vec<String>>,
    pub directory: Option<String>,
}

/// A request for the source of a function.
#[derive(Debug, Clone, PartialEq, Eq)]
pub struct SourceRequest {
    pub function: String,
    pub blacklist: Option<Vec<String>>,
    pub directory: Option<String>,
}

/// A request for the listing of all declarations.
#[derive(Debug, Clone, PartialEq, Eq)]
pub struct ListAllRequest {
    pub public_only: Option<bool>,
    pub blacklist: Option<Vec<String>>,
    pub directory: Option<String>,
}

/// The answer to a request that succeeded.
#[derive(Debug, Clone, PartialEq, Eq)]
pub struct ToolCallResponse {
    pub result: String,
}

/// The answer to a request that failed.
#[derive(Debug, Clone, PartialEq, Eq)]
pub struct ErrorResponse {
    pub error: String,
}

/// A project by short name and path.
#[derive(Debug, Clone, PartialEq, Eq)]
pub struct ProjectInfoResponse {
    pub name: String,
    pub path: String,
}

/// The primary project and the others.
#[derive(Debug, Clone, PartialEq, Eq)]
pub struct InfoResponse {
    pub primary_project: ProjectInfoResponse,
    pub dependencies: Vec<ProjectInfoResponse>,
}

/// A project of an answer as text.
pub open spec fn response_view(r: ProjectInfoResponse) -> (Seq<char>, Seq<char>) {
    (r.name@, r.path@)
}

/// What a request asks the analysis to do.
#[derive(Debug, PartialEq, Eq)]
pub struct Job {
    /// The directories to walk.
    pub dirs: Vec<String>,
    /// The report to make.
    pub mode: OutputMode,
    /// Texts that exclude every path that holds one of them.
    pub blacklist: Vec<String>,
}

/// The listed texts of a request, none where it lists none.
pub open spec fn listed_or_none(blacklist: Option<Vec<String>>) -> Seq<String> {
    match blacklist {
        Some(b) => b@,
        None => Seq::empty(),
    }
}

fn blacklist_of(blacklist: Option<Vec<String>>) -> (r: Vec<String>)
    ensures
        r@ == listed_or_none(blacklist),
{
    match blacklist {
        Some(b) => b,
        None => Vec::new(),
    }
}

impl ProjectConfig {
    #[verifier::type_invariant]
    spec fn well_formed(self) -> bool {
        first_is_primary(self@)
    }

    /// The configuration for the given project directories, the first of
    /// which is the primary project, where `file_names` holds the final
    /// component of each directory's path. There is none for an empty list,
    /// nor for lists of different lengths.
    pub fn with_names(dirs: Vec<String>, file_names: Vec<Option<String>>) -> (r: Option<
        ProjectConfig,
    >)
        ensures
            r is None <==> dirs.len() == 0 || dirs.len() != file_names.len(),
            r matches Some(c) ==> c@ == configured(texts(dirs@), option_texts(file_names@)),
    {
        if dirs.len() == 0 || dirs.len() != file_names.len() {
            return None;
        }
        let ghost wanted = configured(texts(dirs@), option_texts(file_names@));
        let mut projects: Vec<ProjectInfo> = Vec::new();
        let mut i: usize = 0;
        while i < dirs.len()
            invariant
                i <= dirs.len(),
                dirs.len() == file_names.len(),
                projects.len() == i,
                wanted == configured(texts(dirs@), option_texts(file_names@)),
                forall|k: int| 0 <= k < i ==> (#[trigger] projects[k])@ == wanted[k],
            decreases dirs.len() - i,
        {
            let short_name = match &file_names[i] {
                Some(n) => n.clone(),
                None => String::from_str("unknown"),
            };
            projects.push(
                ProjectInfo { full_path: dirs[i].clone(), short_name, is_primary: i == 0 },
            );
            i = i + 1;
        }
        let c = ProjectConfig { projects };
        proof {
            assert(c@ =~= wanted);
        }
        Some(c)
    }

    /// The configuration for the given project directories, the first of
    /// which is the primary project, with the final component of each path
    /// as the platform finds it. There is none for an empty list.
    pub fn new(dirs: Vec<String>) -> (r: Option<ProjectConfig>)
        ensures
            r is None <==> dirs.len() == 0,
            r matches Some(c) ==> {
                &&& exists|file_names: Seq<Option<Seq<char>>>|
                    c@ == configured(texts(dirs@), file_names)
                &&& c@.len() == dirs.len()
                &&& forall|i: int|
                    0 <= i < dirs.len() ==> {
                        &&& (#[trigger] c@[i]).full_path == dirs[i]@
                        &&& c@[i].is_primary == (i == 0)
                        &&& (c@[i].short_name == "unknown"@ || contains_text(
                            dirs[i]@,
                            c@[i].short_name,
                        ))
                    }
            },
    {
        let mut file_names: Vec<Option<String>> = Vec::new();
        let mut i: usize = 0;
        while i < dirs.len()
            invariant
                i <= dirs.len(),
                file_names.len() == i,
                forall|k: int|
                    0 <= k < i ==> ((#[trigger] file_names[k]) matches Some(n) ==> contains_text(
                        dirs[k]@,
                        n@,
                    )),
            decreases dirs.len() - i,
        {
            file_names.push(file_name_of(dirs[i].as_str()));
            i = i + 1;
        }
        let ghost names = option_texts(file_names@);
        let r = ProjectConfig::with_names(dirs, file_names);
        proof {
            match &r {
                Some(c) => {
                    assert(c@ == configured(texts(dirs@), names));
                    assert forall|k: int| 0 <= k < dirs.len() implies {
                        &&& (#[trigger] c@[k]).full_path == dirs[k]@
                        &&& c@[k].is_primary == (k == 0)
                        &&& (c@[k].short_name == "unknown"@ || contains_text(
                            dirs[k]@,
                            c@[k].short_name,
                        ))
                    } by {
                        assert(names[k] == option_text(file_names@[k]));
                    }
                },
                None => {},
            }
        }
        r
    }

    /// The configured projects, in their order.
    pub fn projects(&self) -> (r: &Vec<ProjectInfo>)
        ensures
            info_views(r@) == self@,
            first_is_primary(self@),
    {
        proof {
            use_type_invariant(self);
        }
        &self.projects
    }

    /// The primary project and the others, for the information endpoint.
    pub fn info(&self) -> (r: InfoResponse)
        ensures
            response_view(r.primary_project) == (self@[0].short_name, self@[0].full_path),
            r.dependencies.len() == self@.len() - 1,
            forall|i: int|
                0 <= i < r.dependencies.len() ==> response_view(#[trigger] r.dependencies[i]) == (
                    self@[i + 1].short_name,
                    self@[i + 1].full_path,
                ),
    {
        let ps = self.projects();
        let primary = ProjectInfoResponse {
            name: ps[0].short_name.clone(),
            path: ps[0].full_path.clone(),
        };
        let mut dependencies: Vec<ProjectInfoResponse> = Vec::new();
        let mut i: usize = 1;
        while i < ps.len()
            invariant
                1 <= i <= ps.len(),
                dependencies.len() == i - 1,
                info_views(ps@) == self@,
                forall|k: int|
                    0 <= k < dependencies.len() ==> response_view(#[trigger] dependencies[k]) == (
                        self@[k + 1].short_name,
                        self@[k + 1].full_path,
                    ),
            decreases ps.len() - i,
        {
            dependencies.push(
                ProjectInfoResponse {
                    name: ps[i].short_name.clone(),
                    path: ps[i].full_path.clone(),
                },
            );
            i = i + 1;
        }
        InfoResponse { primary_project: primary, dependencies }
    }

    /// The paths of all configured projects, in their order.
    pub fn directories(&self) -> (r: Vec<String>)
        ensures
            texts(r@) == self@.map_values(|p: ProjectInfoView| p.full_path),
    {
        let ps = self.projects();
        let mut r: Vec<String> = Vec::new();
        let mut i: usize = 0;
        while i < ps.len()
            invariant
                i <= ps.len(),
                r.len() == i,
                info_views(ps@) == self@,
                forall|k: int| 0 <= k < i ==> (#[trigger] r[k])@ == self@[k].full_path,
            decreases ps.len() - i,
        {
            r.push(ps[i].full_path.clone());
            i = i + 1;
        }
        proof {
            assert(texts(r@) =~= self@.map_values(|p: ProjectInfoView| p.full_path));
        }
        r
    }
}

fn find_named(ps: &Vec<ProjectInfo>, name: &str) -> (r: Option<usize>)
    ensures
        match r {
            Some(i) => last_named(info_views(ps@), name@) == Some(i as int) && is_named(
                info_views(ps@),
                name@,
                i as int,
            ),
            None => last_named(info_views(ps@), name@) is None,
        },
{
    reveal(last_named);
    let ghost views = info_views(ps@);
    let wanted = String::from_str(name);
    let mut hit: Option<usize> = None;
    let mut i: usize = 0;
    while i < ps.len()
        invariant
            i <= ps.len(),
            views == info_views(ps@),
            wanted@ == name@,
            match hit {
                Some(h) => h < i && is_named(views, name@, h as int) && forall|j: int|
                    h < j < i ==> !is_named(views, name@, j),
                None => forall|j: int| 0 <= j < i ==> !is_named(views, name@, j),
            },
        decreases ps.len() - i,
    {
        if ps[i].short_name == wanted {
            hit = Some(i);
        }
        i = i + 1;
    }
    proof {
        match hit {
            Some(h) => {
                let c = choose|c: int|
                    is_named(views, name@, c) && forall|j: int|
                        c < j < views.len() ==> !is_named(views, name@, j);
                if c < h {
                    assert(!is_named(views, name@, h as int));
                }
                if h < c {
                    assert(!is_named(views, name@, c));
                }
            },
            None => {},
        }
    }
    hit
}

fn find_below(ps: &Vec<ProjectInfo>, name: &Vec<char>) -> (r: Option<usize>)
    ensures
        match r {
            Some(i) => last_below(info_views(ps@), name@) == Some(i as int) && is_below(
                info_views(ps@),
                name@,
                i as int,
            ),
            None => last_below(info_views(ps@), name@) is None,
        },
{
    reveal(last_below);
    let ghost views = info_views(ps@);
    let mut hit: Option<usize> = None;
    let mut i: usize = 0;
    while i < ps.len()
        invariant
            i <= ps.len(),
            views == info_views(ps@),
            match hit {
                Some(h) => h < i && is_below(views, name@, h as int) && forall|j: int|
                    h < j < i ==> !is_below(views, name@, j),
                None => forall|j: int| 0 <= j < i ==> !is_below(views, name@, j),
            },
        decreases ps.len() - i,
    {
        let mut prefix = chars_of(ps[i].short_name.as_str());
        prefix.push('/');
        proof {
            assert(prefix@ =~= views[i as int].short_name + slash());
        }
        if starts_with(name, &prefix) {
            hit = Some(i);
        }
        i = i + 1;
    }
    proof {
        match hit {
            Some(h) => {
                let c = choose|c: int|
                    is_below(views, name@, c) && forall|j: int|
                        c < j < views.len() ==> !is_below(views, name@, j);
                if c < h {
                    assert(!is_below(views, name@, h as int));
                }
                if h < c {
                    assert(!is_below(views, name@, c));
                }
            },
            None => {},
        }
    }
    hit
}

fn subdirectory_of(p: &ProjectInfo, name: &str) -> (r: String)
    requires
        has_prefix(name@, p@.short_name + slash()),
    ensures
        r@ == p@.full_path + slash() + name@.subrange(p@.short_name.len() as int + 1, name@.len() as int),
{
    let from = p.short_name.as_str().unicode_len();
    let to = name.unicode_len();
    let mut r = p.full_path.clone();
    proof {
        lemma_slash_literal();
    }
    r.append("/");
    r.append(name.substring_char(from + 1, to));
    r
}

fn is_project_path(ps: &Vec<ProjectInfo>, name: &str) -> (r: bool)
    ensures
        r == is_listed(info_views(ps@), name@),
{
    let ghost views = info_views(ps@);
    let wanted = String::from_str(name);
    let mut i: usize = 0;
    while i < ps.len()
        invariant
            i <= ps.len(),
            views == info_views(ps@),
            wanted@ == name@,
            forall|j: int| 0 <= j < i ==> (#[trigger] views[j]).full_path != name@,
        decreases ps.len() - i,
    {
        if ps[i].full_path == wanted {
            assert(views[i as int].full_path == name@);
            return true;
        }
        i = i + 1;
    }
    false
}

fn unknown_directory(ps: &Vec<ProjectInfo>, name: &str) -> (r: String)
    ensures
        r@ == unknown_directory_message(info_views(ps@), name@),
{
    let ghost views = info_views(ps@);
    let ghost lines = views.map_values(|p: ProjectInfoView| project_line(p)).push(
        "\nYou can also use subdirectories: 'project-name/subdir/path'"@,
    );
    let mut r = String::from_str("Unknown directory: '");
    r.append(name);
    r.append("'. Available projects:\n");
    let ghost head = r@;
    let mut i: usize = 0;
    while i < ps.len()
        invariant
            i <= ps.len(),
            views == info_views(ps@),
            lines == views.map_values(|p: ProjectInfoView| project_line(p)).push(
                "\nYou can also use subdirectories: 'project-name/subdir/path'"@,
            ),
            r@ == head + join(lines.take(i as int), "\n"@),
        decreases ps.len() - i,
    {
        proof {
            lemma_join_step(lines, "\n"@, i as int);
        }
        if i > 0 {
            r.append("\n");
        }
        r.append("  '");
        r.append(ps[i].short_name.as_str());
        r.append("' -> ");
        r.append(ps[i].full_path.as_str());
        i = i + 1;
    }
    proof {
        lemma_join_step(lines, "\n"@, i as int);
        assert(lines.take(i + 1) == lines);
    }
    if i > 0 {
        r.append("\n");
    }
    r.append("\nYou can also use subdirectories: 'project-name/subdir/path'");
    r
}

/// The path that must be looked for on disk before `resolve_directory` can
/// say what `name` means; `None` where the answer does not depend on the disk.
pub fn directory_to_probe(config: &ProjectConfig, name: &str) -> (r: Option<String>)
    ensures
        match r {
            Some(p) => probed_path(config@, name@) == Some(p@),
            None => probed_path(config@, name@) is None,
        },
{
    let ps = config.projects();
    if find_named(ps, name).is_some() {
        return None;
    }
    let chars = chars_of(name);
    match find_below(ps, &chars) {
        Some(i) => Some(subdirectory_of(&ps[i], name)),
        None => if is_project_path(ps, name) {
            None
        } else {
            Some(String::from_str(name))
        },
    }
}

/// The directory that `name` means. `exists` says whether the path that
/// `directory_to_probe` gives for `name` is on disk; where it gives none,
/// `exists` is not read.
pub fn resolve_directory(config: &ProjectConfig, name: &str, exists: bool) -> (r: Result<
    String,
    String,
>)
    ensures
        result_text(r) == resolution(config@, name@, exists),
{
    let ps = config.projects();
    match find_named(ps, name) {
        Some(i) => {
            return Ok(ps[i].full_path.clone());
        },
        None => {},
    }
    let chars = chars_of(name);
    match find_below(ps, &chars) {
        Some(i) => {
            let full_path = subdirectory_of(&ps[i], name);
            if exists {
                Ok(full_path)
            } else {
                let mut e = String::from_str("Directory '");
                e.append(full_path.as_str());
                e.append("' does not exist");
                Err(e)
            }
        },
        None => {
            if is_project_path(ps, name) || exists {
                Ok(String::from_str(name))
            } else {
                Err(unknown_directory(ps, name))
            }
        },
    }
}

/// The directories that a request is run on.
pub fn select_directories(config: &ProjectConfig, directory: &Option<String>, exists: bool) -> (r:
    Result<Vec<String>, String>)
    ensures
        match r {
            Ok(dirs) => requested_directories(config@, *directory, exists) == Ok::<
                Seq<Seq<char>>,
                Seq<char>,
            >(texts(dirs@)),
            Err(e) => requested_directories(config@, *directory, exists) == Err::<
                Seq<Seq<char>>,
                Seq<char>,
            >(e@),
        },
{
    match directory {
        Some(name) => match resolve_directory(config, name.as_str(), exists) {
            Ok(resolved) => {
                let mut dirs: Vec<String> = Vec::new();
                dirs.push(resolved);
                proof {
                    assert(texts(dirs@) =~= seq![resolved@]);
                }
                Ok(dirs)
            },
            Err(e) => Err(e),
        },
        None => Ok(config.directories()),
    }
}

impl CallGraphRequest {
    /// What the request asks for, or the answer that refuses it. `exists`
    /// is read as by `resolve_directory`, for the directory of the request.
    pub fn job(self, config: &ProjectConfig, exists: bool) -> (r: Result<Job, ErrorResponse>)
        ensures
            match r {
                Ok(job) => {
                    &&& requested_directories(config@, self.directory, exists) == Ok::<
                        Seq<Seq<char>>,
                        Seq<char>,
                    >(texts(job.dirs@))
                    &&& job.mode == (OutputMode::CallGraph {
                        root: self.root_function,
                        visibility: VisibilityFilter::from_flag_spec(self.public_only),
                    })
                    &&& job.blacklist@ == listed_or_none(self.blacklist)
                },
                Err(e) => requested_directories(config@, self.directory, exists) == Err::<
                    Seq<Seq<char>>,
                    Seq<char>,
                >(e.error@),
            },
    {
        let visibility = VisibilityFilter::from_flag(self.public_only);
        match select_directories(config, &self.directory, exists) {
            Ok(dirs) => Ok(
                Job {
                    dirs,
                    mode: OutputMode::CallGraph { root: self.root_function, visibility },
                    blacklist: blacklist_of(self.blacklist),
                },
            ),
            Err(error) => Err(ErrorResponse { error }),
        }
    }
}

impl SourceRequest {
    /// What the request asks for, or the answer that refuses it. `exists`
    /// is read as by `resolve_directory`, for the directory of the request.
    pub fn job(self, config: &ProjectConfig, exists: bool) -> (r: Result<Job, ErrorResponse>)
        ensures
            match r {
                Ok(job) => {
                    &&& requested_directories(config@, self.directory, exists) == Ok::<
                        Seq<Seq<char>>,
                        Seq<char>,
                    >(texts(job.dirs@))
                    &&& job.mode == (OutputMode::Source { function: self.function })
                    &&& job.blacklist@ == listed_or_none(self.blacklist)
                },
                Err(e) => requested_directories(config@, self.directory, exists) == Err::<
                    Seq<Seq<char>>,
                    Seq<char>,
                >(e.error@),
            },
    {
        match select_directories(config, &self.directory, exists) {
            Ok(dirs) => Ok(
                Job {
                    dirs,
                    mode: OutputMode::Source { function: self.function },
                    blacklist: blacklist_of(self.blacklist),
                },
            ),
            Err(error) => Err(ErrorResponse { error }),
        }
    }
}

impl ListAllRequest {
    /// What the request asks for, or the answer that refuses it. `exists`
    /// is read as by `resolve_directory`, for the directory of the request.
    pub fn job(self, config: &ProjectConfig, exists: bool) -> (r: Result<Job, ErrorResponse>)
        ensures
            match r {
                Ok(job) => {
                    &&& requested_directories(config@, self.directory, exists) == Ok::<
                        Seq<Seq<char>>,
                        Seq<char>,
                    >(texts(job.dirs@))
                    &&& job.mode == (OutputMode::ListAll {
                        visibility: VisibilityFilter::from_flag_spec(self.public_only),
                    })
                    &&& job.blacklist@ == listed_or_none(self.blacklist)
                },
                Err(e) => requested_directories(config@, self.directory, exists) == Err::<
                    Seq<Seq<char>>,
                    Seq<char>,
                >(e.error@),
            },
    {
        let visibility = VisibilityFilter::from_flag(self.public_only);
        match select_directories(config, &self.directory, exists) {
            Ok(dirs) => Ok(
                Job {
                    dirs,
                    mode: OutputMode::ListAll { visibility },
                    blacklist: blacklist_of(self.blacklist),
                },
            ),
            Err(error) => Err(ErrorResponse { error }),
        }
    }
}

/// The answer to a request: the report's text, or the error's.
pub fn tool_response(outcome: Result<Output, String>) -> (r: Result<ToolCallResponse, ErrorResponse>)
    ensures
        r == (match outcome {
            Ok(output) => Ok::<ToolCallResponse, ErrorResponse>(
                ToolCallResponse { result: output.content },
            ),
            Err(error) => Err::<ToolCallResponse, ErrorResponse>(ErrorResponse { error }),
        }),
{
    match outcome {
        Ok(output) => Ok(ToolCallResponse { result: output.content }),
        Err(error) => Err(ErrorResponse { error }),
    }
}

} // verus!
