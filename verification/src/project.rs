//! The index of one analysis run: the functions by their keys, the declared
//! types by their names, and how parsed files are taken into it.

use crate::copy::{declaration_alike, function_alike};
use crate::declaration::TypeDeclaration;
use crate::function::{
    file_of_name, free_function, function_views, method_function, Function, FunctionView,
};
use crate::signature::{format_type, type_text};
use crate::syntax::{ImplItem, Item, ParsedFile};
use crate::text::{
    distinct, has_prefix, lemma_first_occurrence_meaning, occurs_at, separator,
};
use vstd::prelude::*;
use vstd::string::*;

verus! {

/// A declared type with the file that declares it.
#[derive(Debug, PartialEq, Eq)]
pub struct TypeEntry {
    pub file_path: String,
    pub item: TypeDeclaration,
}

/// A declared type with its file as text.
pub struct TypeEntryView {
    pub file_path: Seq<char>,
    pub item: TypeDeclaration,
}

impl View for TypeEntry {
    type V = TypeEntryView;

    open spec fn view(&self) -> TypeEntryView {
        TypeEntryView { file_path: self.file_path@, item: self.item }
    }
}

/// The entries of a list with their files as text.
pub open spec fn type_views(ts: Seq<TypeEntry>) -> Seq<TypeEntryView> {
    ts.map_values(|t: TypeEntry| t@)
}

/// The position at which `name` stands, if it stands anywhere.
pub open spec fn position(names: Seq<Seq<char>>, name: Seq<char>) -> Option<int> {
    if exists|i: int| 0 <= i < names.len() && names[i] == name {
        Some(choose|i: int| 0 <= i < names.len() && names[i] == name)
    } else {
        None
    }
}

/// Among distinct names, a position at which `name` stands is its position.
pub proof fn lemma_position_found(names: Seq<Seq<char>>, name: Seq<char>, i: int)
    requires
        distinct(names),
        0 <= i < names.len(),
        names[i] == name,
    ensures
        position(names, name) == Some(i),
{
    let c = choose|c: int| 0 <= c < names.len() && names[c] == name;
    if c < i {
        assert(names[c] != names[i]);
    }
    if i < c {
        assert(names[i] != names[c]);
    }
}

/// The keys of the functions, in their order.
pub open spec fn function_names(fs: Seq<FunctionView>) -> Seq<Seq<char>> {
    fs.map_values(|f: FunctionView| f.qualified_name)
}

/// The names of the declared types, in their order.
pub open spec fn type_names(ts: Seq<TypeEntryView>) -> Seq<Seq<char>> {
    ts.map_values(|t: TypeEntryView| t.item.name())
}

/// The functions with `f` taken in: `f` stands where a function with its key
/// stood before, or at the end if there was none.
pub open spec fn with_function(fs: Seq<FunctionView>, f: FunctionView) -> Seq<FunctionView> {
    match position(function_names(fs), f.qualified_name) {
        Some(i) => fs.update(i, f),
        None => fs.push(f),
    }
}

/// The types with `t` taken in: `t` stands where a type of its name stood
/// before, or at the end if there was none.
pub open spec fn with_type(ts: Seq<TypeEntryView>, t: TypeEntryView) -> Seq<TypeEntryView> {
    match position(type_names(ts), t.item.name()) {
        Some(i) => ts.update(i, t),
        None => ts.push(t),
    }
}

/// The index as sequences: what was taken in first stands first.
pub struct ProjectView {
    pub functions: Seq<FunctionView>,
    pub types: Seq<TypeEntryView>,
}

impl ProjectView {
    /// The index that holds nothing.
    pub open spec fn empty() -> ProjectView {
        ProjectView { functions: Seq::empty(), types: Seq::empty() }
    }

    /// No two functions share a key, and no two types a name.
    pub open spec fn wf(self) -> bool {
        &&& distinct(function_names(self.functions))
        &&& distinct(type_names(self.types))
    }

    /// The keys of the functions, in their order.
    pub open spec fn names(self) -> Seq<Seq<char>> {
        function_names(self.functions)
    }
}

/// The functions after the members of an `impl` for the type printed as
/// `target` were taken in: of its methods only the public ones are kept.
pub open spec fn ingest_impl_items(
    fs: Seq<FunctionView>,
    target: Seq<char>,
    file_path: Seq<char>,
    items: Seq<ImplItem>,
) -> Seq<FunctionView>
    decreases items.len(),
{
    if items.len() == 0 {
        fs
    } else {
        let before = ingest_impl_items(fs, target, file_path, items.drop_last());
        match items.last() {
            ImplItem::Fn(m) => if m.vis.is_public() {
                with_function(before, method_function(m, target, file_path))
            } else {
                before
            },
            ImplItem::Other => before,
        }
    }
}

/// The index after one declaration of the file `file_path` was taken in.
///
/// A free function is kept whatever its visibility; of the methods of an
/// `impl` only the public ones; a record, a sum type, an interface and an
/// alias under its bare name, in place of any earlier type of that name.
pub open spec fn ingest_item(p: ProjectView, file_path: Seq<char>, item: Item) -> ProjectView {
    match item {
        Item::Fn(f) => ProjectView {
            functions: with_function(p.functions, free_function(f, file_path)),
            types: p.types,
        },
        Item::Impl(imp) => ProjectView {
            functions: ingest_impl_items(
                p.functions,
                type_text(imp.self_ty),
                file_path,
                imp.items@,
            ),
            types: p.types,
        },
        Item::Struct(s) => ProjectView {
            functions: p.functions,
            types: with_type(
                p.types,
                TypeEntryView { file_path, item: TypeDeclaration::Struct(s) },
            ),
        },
        Item::Enum(e) => ProjectView {
            functions: p.functions,
            types: with_type(p.types, TypeEntryView { file_path, item: TypeDeclaration::Enum(e) }),
        },
        Item::Trait(t) => ProjectView {
            functions: p.functions,
            types: with_type(
                p.types,
                TypeEntryView { file_path, item: TypeDeclaration::Trait(t) },
            ),
        },
        Item::Type(a) => ProjectView {
            functions: p.functions,
            types: with_type(
                p.types,
                TypeEntryView { file_path, item: TypeDeclaration::Alias(a) },
            ),
        },
        Item::Other => p,
    }
}

/// The index after the declarations of one file were taken in, in the order
/// written.
pub open spec fn ingest_items(p: ProjectView, file_path: Seq<char>, items: Seq<Item>) -> ProjectView
    decreases items.len(),
{
    if items.len() == 0 {
        p
    } else {
        ingest_item(ingest_items(p, file_path, items.drop_last()), file_path, items.last())
    }
}

/// The index after the files were taken in, in their order. A file that
/// could not be read or parsed adds nothing.
pub open spec fn ingest_files(p: ProjectView, files: Seq<ParsedFile>) -> ProjectView
    decreases files.len(),
{
    if files.len() == 0 {
        p
    } else {
        let before = ingest_files(p, files.drop_last());
        match files.last().items {
            Some(items) => ingest_items(before, files.last().path@, items@),
            None => before,
        }
    }
}

/// Two entries read the same: the same file and declarations that read
/// the same.
pub open spec fn type_entry_alike(a: TypeEntryView, b: TypeEntryView) -> bool {
    a.file_path == b.file_path && declaration_alike(a.item, b.item)
}

/// Two indexes read the same: as many functions and types, in the same
/// order, each reading as its counterpart.
pub open spec fn project_alike(a: ProjectView, b: ProjectView) -> bool {
    &&& a.functions.len() == b.functions.len()
    &&& a.types.len() == b.types.len()
    &&& forall|k: int|
        0 <= k < a.functions.len() ==> function_alike(#[trigger] a.functions[k], b.functions[k])
    &&& forall|k: int|
        0 <= k < a.types.len() ==> type_entry_alike(#[trigger] a.types[k], b.types[k])
}

impl Clone for TypeEntry {
    fn clone(&self) -> (r: Self)
        ensures
            type_entry_alike(r@, self@),
    {
        TypeEntry { file_path: self.file_path.clone(), item: self.item.clone() }
    }
}

impl Clone for Project {
    fn clone(&self) -> (r: Self)
        ensures
            project_alike(r@, self@),
    {
        self.duplicate()
    }
}

/// The index of one analysis run.
pub struct Project {
    functions: Vec<Function>,
    types: Vec<TypeEntry>,
}

impl View for Project {
    type V = ProjectView;

    closed spec fn view(&self) -> ProjectView {
        ProjectView { functions: function_views(self.functions@), types: type_views(self.types@) }
    }
}

impl Project {
    #[verifier::type_invariant]
    spec fn well_formed(self) -> bool {
        self@.wf()
    }

    /// A copy of the index: as many functions and types, in the same order,
    /// each reading as the one it was copied from.
    pub fn duplicate(&self) -> (r: Project)
        ensures
            project_alike(r@, self@),
    {
        proof {
            use_type_invariant(self);
        }
        let mut functions: Vec<Function> = Vec::new();
        let mut i: usize = 0;
        while i < self.functions.len()
            invariant
                i <= self.functions.len(),
                functions.len() == i,
                forall|k: int|
                    0 <= k < i ==> function_alike((#[trigger] functions[k])@, self.functions[k]@),
            decreases self.functions.len() - i,
        {
            functions.push(self.functions[i].clone());
            i = i + 1;
        }
        let mut types: Vec<TypeEntry> = Vec::new();
        let mut t: usize = 0;
        while t < self.types.len()
            invariant
                t <= self.types.len(),
                types.len() == t,
                forall|k: int|
                    0 <= k < t ==> type_entry_alike((#[trigger] types[k])@, self.types[k]@),
            decreases self.types.len() - t,
        {
            types.push(self.types[t].clone());
            t = t + 1;
        }
        proof {
            let copied = ProjectView {
                functions: function_views(functions@),
                types: type_views(types@),
            };
            assert(function_names(copied.functions) =~= function_names(self@.functions)) by {
                assert forall|k: int| 0 <= k < functions.len() implies function_names(
                    copied.functions,
                )[k] == function_names(self@.functions)[k] by {
                    assert(function_alike(functions[k]@, self.functions[k]@));
                }
            }
            assert(type_names(copied.types) =~= type_names(self@.types)) by {
                assert forall|k: int| 0 <= k < types.len() implies type_names(copied.types)[k]
                    == type_names(self@.types)[k] by {
                    assert(type_entry_alike(types[k]@, self.types[k]@));
                }
            }
            assert forall|k: int| 0 <= k < copied.functions.len() implies function_alike(
                #[trigger] copied.functions[k],
                self@.functions[k],
            ) by {
                assert(function_alike(functions[k]@, self.functions[k]@));
            }
            assert forall|k: int| 0 <= k < copied.types.len() implies type_entry_alike(
                #[trigger] copied.types[k],
                self@.types[k],
            ) by {
                assert(type_entry_alike(types[k]@, self.types[k]@));
            }
        }
        Project { functions, types }
    }

    /// An index that holds nothing.
    pub fn new() -> (r: Project)
        ensures
            r@ == ProjectView::empty(),
    {
        let r = Project { functions: Vec::new(), types: Vec::new() };
        assert(r@.functions =~= Seq::empty());
        assert(r@.types =~= Seq::empty());
        r
    }

    /// The functions, in the order in which their keys were first taken in.
    pub fn functions(&self) -> (r: &Vec<Function>)
        ensures
            function_views(r@) == self@.functions,
            self@.wf(),
    {
        proof {
            use_type_invariant(self);
        }
        &self.functions
    }

    /// The declared types, in the order in which their names were first
    /// taken in.
    pub fn types(&self) -> (r: &Vec<TypeEntry>)
        ensures
            type_views(r@) == self@.types,
            self@.wf(),
    {
        proof {
            use_type_invariant(self);
        }
        &self.types
    }

    /// Takes a function in, in place of any function with the same key.
    pub fn insert_function(&mut self, f: Function)
        ensures
            final(self)@.functions == with_function(old(self)@.functions, f@),
            final(self)@.types == old(self)@.types,
    {
        proof {
            use_type_invariant(&*self);
        }
        let ghost names = function_names(self@.functions);
        let ghost before = self.functions@;
        let mut fs: Vec<Function> = Vec::new();
        core::mem::swap(&mut self.functions, &mut fs);
        let mut i: usize = 0;
        let mut found = false;
        while i < fs.len() && !found
            invariant
                i <= fs.len(),
                fs@ == before,
                names == function_names(function_views(before)),
                forall|j: int| 0 <= j < i ==> names[j] != f.qualified_name@,
                found ==> i < fs.len() && names[i as int] == f.qualified_name@,
            decreases fs.len() - i + (if found { 0int } else { 1int }),
        {
            if fs[i].qualified_name == f.qualified_name {
                found = true;
            } else {
                i = i + 1;
            }
        }
        if found {
            proof {
                lemma_position_found(names, f.qualified_name@, i as int);
            }
            fs.set(i, f);
            proof {
                assert(function_views(fs@) =~= function_views(before).update(i as int, f@));
                assert(function_names(function_views(fs@)) =~= names);
            }
        } else {
            fs.push(f);
            proof {
                assert(function_views(fs@) =~= function_views(before).push(f@));
                assert(function_names(function_views(fs@)) =~= names.push(f.qualified_name@));
            }
        }
        core::mem::swap(&mut self.functions, &mut fs);
    }

    /// Takes a declared type in under its bare name, in place of any type
    /// of that name.
    pub fn insert_type(&mut self, file_path: String, item: TypeDeclaration)
        ensures
            final(self)@.functions == old(self)@.functions,
            final(self)@.types == with_type(
                old(self)@.types,
                TypeEntryView { file_path: file_path@, item },
            ),
    {
        proof {
            use_type_invariant(&*self);
        }
        let ghost names = type_names(self@.types);
        let ghost before = self.types@;
        let entry = TypeEntry { file_path, item };
        let mut ts: Vec<TypeEntry> = Vec::new();
        core::mem::swap(&mut self.types, &mut ts);
        let mut i: usize = 0;
        let mut found = false;
        while i < ts.len() && !found
            invariant
                i <= ts.len(),
                ts@ == before,
                names == type_names(type_views(before)),
                forall|j: int| 0 <= j < i ==> names[j] != entry.item.name(),
                found ==> i < ts.len() && names[i as int] == entry.item.name(),
            decreases ts.len() - i + (if found { 0int } else { 1int }),
        {
            if *ts[i].item.ident() == *entry.item.ident() {
                found = true;
            } else {
                i = i + 1;
            }
        }
        if found {
            proof {
                lemma_position_found(names, entry.item.name(), i as int);
            }
            ts.set(i, entry);
            proof {
                assert(type_views(ts@) =~= type_views(before).update(i as int, entry@));
                assert(type_names(type_views(ts@)) =~= names);
            }
        } else {
            ts.push(entry);
            proof {
                assert(type_views(ts@) =~= type_views(before).push(entry@));
                assert(type_names(type_views(ts@)) =~= names.push(entry.item.name()));
            }
        }
        core::mem::swap(&mut self.types, &mut ts);
    }

    /// Takes in the members of an `impl` for the type printed as `target`.
    fn insert_impl_items(&mut self, target: &String, file_path: &str, items: Vec<ImplItem>)
        ensures
            final(self)@.functions == ingest_impl_items(
                old(self)@.functions,
                target@,
                file_path@,
                items@,
            ),
            final(self)@.types == old(self)@.types,
    {
        let mut items = items;
        let ghost all = items@;
        let mut i: usize = 0;
        while i < items.len()
            invariant
                i <= items.len(),
                items.len() == all.len(),
                forall|k: int| i <= k < all.len() ==> items@[k] == all[k],
                self@.functions == ingest_impl_items(
                    old(self)@.functions,
                    target@,
                    file_path@,
                    all.take(i as int),
                ),
                self@.types == old(self)@.types,
            decreases items.len() - i,
        {
            proof {
                assert(all.take(i + 1).drop_last() == all.take(i as int));
            }
            let mut taken = ImplItem::Other;
            items.set_and_swap(i, &mut taken);
            match taken {
                ImplItem::Fn(method) => {
                    if method.vis.is_public() {
                        let f = Function::from_impl_method(method, target.clone(), file_path);
                        self.insert_function(f);
                    }
                },
                ImplItem::Other => {},
            }
            i = i + 1;
        }
        proof {
            assert(all.take(i as int) == all);
        }
    }

    /// Takes one declaration of the file `file_path` in.
    pub fn insert_item(&mut self, file_path: &str, item: Item)
        ensures
            final(self)@ == ingest_item(old(self)@, file_path@, item),
    {
        match item {
            Item::Fn(f) => {
                let func = Function::from_fn(f, file_path);
                self.insert_function(func);
            },
            Item::Impl(imp) => {
                let target = format_type(&imp.self_ty);
                self.insert_impl_items(&target, file_path, imp.items);
            },
            Item::Struct(s) => {
                self.insert_type(String::from_str(file_path), TypeDeclaration::Struct(s));
            },
            Item::Enum(e) => {
                self.insert_type(String::from_str(file_path), TypeDeclaration::Enum(e));
            },
            Item::Trait(t) => {
                self.insert_type(String::from_str(file_path), TypeDeclaration::Trait(t));
            },
            Item::Type(a) => {
                self.insert_type(String::from_str(file_path), TypeDeclaration::Alias(a));
            },
            Item::Other => {},
        }
    }

    /// Takes the declarations of one file in, in the order written.
    pub fn insert_items(&mut self, file_path: &str, items: Vec<Item>)
        ensures
            final(self)@ == ingest_items(old(self)@, file_path@, items@),
    {
        let mut items = items;
        let ghost all = items@;
        let mut i: usize = 0;
        while i < items.len()
            invariant
                i <= items.len(),
                items.len() == all.len(),
                forall|k: int| i <= k < all.len() ==> items@[k] == all[k],
                self@ == ingest_items(old(self)@, file_path@, all.take(i as int)),
            decreases items.len() - i,
        {
            proof {
                assert(all.take(i + 1).drop_last() == all.take(i as int));
            }
            let mut taken = Item::Other;
            items.set_and_swap(i, &mut taken);
            self.insert_item(file_path, taken);
            i = i + 1;
        }
        proof {
            assert(all.take(i as int) == all);
        }
    }
}

/// The error for a type name that the index does not hold.
pub open spec fn type_not_found_message(name: Seq<char>) -> Seq<char> {
    "Type "@ + name + " not found in project"@
}

/// The file of the type `name`, or the error for a name that the index does
/// not hold.
pub open spec fn type_file_or_error(p: ProjectView, name: Seq<char>) -> Result<
    Seq<char>,
    Seq<char>,
> {
    match position(type_names(p.types), name) {
        Some(i) => Ok(p.types[i].file_path),
        None => Err(type_not_found_message(name)),
    }
}

/// The file that declares the type `name`.
pub fn find_file_for_type(name: &str, project: &Project) -> (r: Result<String, String>)
    ensures
        match r {
            Ok(file) => type_file_or_error(project@, name@) == Ok::<Seq<char>, Seq<char>>(file@),
            Err(e) => type_file_or_error(project@, name@) == Err::<Seq<char>, Seq<char>>(e@),
        },
{
    let types = project.types();
    let wanted = String::from_str(name);
    let ghost names = type_names(project@.types);
    let mut i: usize = 0;
    while i < types.len()
        invariant
            i <= types.len(),
            wanted@ == name@,
            type_views(types@) == project@.types,
            names == type_names(project@.types),
            distinct(names),
            forall|j: int| 0 <= j < i ==> names[j] != name@,
        decreases types.len() - i,
    {
        if *types[i].item.ident() == wanted {
            proof {
                lemma_position_found(names, name@, i as int);
                assert(project@.types[i as int] == types[i as int]@);
            }
            return Ok(types[i].file_path.clone());
        }
        i = i + 1;
    }
    let mut e = String::from_str("Type ");
    e.append(name);
    e.append(" not found in project");
    Err(e)
}

/// Builds the index from the files met on the walk, in their order.
///
/// A file that could not be read or parsed is passed over; building the
/// index never fails.
pub fn load_project(files: Vec<ParsedFile>) -> (r: Result<Project, String>)
    ensures
        r matches Ok(p) && p@ == ingest_files(ProjectView::empty(), files@),
{
    let mut files = files;
    let ghost all = files@;
    let mut project = Project::new();
    let mut i: usize = 0;
    while i < files.len()
        invariant
            i <= files.len(),
            files.len() == all.len(),
            forall|k: int| i <= k < all.len() ==> files@[k] == all[k],
            project@ == ingest_files(ProjectView::empty(), all.take(i as int)),
        decreases files.len() - i,
    {
        proof {
            assert(all.take(i + 1).drop_last() == all.take(i as int));
        }
        let mut taken = ParsedFile { path: String::new(), items: None };
        files.set_and_swap(i, &mut taken);
        match taken.items {
            Some(items) => project.insert_items(taken.path.as_str(), items),
            None => {},
        }
        i = i + 1;
    }
    proof {
        assert(all.take(i as int) == all);
    }
    Ok(project)
}

/// The key begins with the path of one of the files and a separator.
pub open spec fn begins_with_file(key: Seq<char>, files: Seq<ParsedFile>) -> bool {
    exists|k: int| 0 <= k < files.len() && has_prefix(key, (#[trigger] files[k]).path@ + separator())
}

/// Every key begins with the path of one of the files and a separator.
pub open spec fn keys_begin_with_files(fs: Seq<FunctionView>, files: Seq<ParsedFile>) -> bool {
    forall|i: int| 0 <= i < fs.len() ==> begins_with_file((#[trigger] fs[i]).qualified_name, files)
}

proof fn lemma_with_function_keys(fs: Seq<FunctionView>, f: FunctionView, files: Seq<ParsedFile>)
    requires
        keys_begin_with_files(fs, files),
        begins_with_file(f.qualified_name, files),
    ensures
        keys_begin_with_files(with_function(fs, f), files),
{
    let after = with_function(fs, f);
    assert forall|i: int| 0 <= i < after.len() implies begins_with_file(
        (#[trigger] after[i]).qualified_name,
        files,
    ) by {
        match position(function_names(fs), f.qualified_name) {
            Some(at) => {
                if i != at {
                    assert(after[i] == fs[i]);
                }
            },
            None => {
                if i < fs.len() {
                    assert(after[i] == fs[i]);
                }
            },
        }
    }
}

proof fn lemma_impl_items_keys(
    fs: Seq<FunctionView>,
    target: Seq<char>,
    files: Seq<ParsedFile>,
    k: int,
    items: Seq<ImplItem>,
)
    requires
        0 <= k < files.len(),
        keys_begin_with_files(fs, files),
    ensures
        keys_begin_with_files(ingest_impl_items(fs, target, files[k].path@, items), files),
    decreases items.len(),
{
    if items.len() > 0 {
        lemma_impl_items_keys(fs, target, files, k, items.drop_last());
        let before = ingest_impl_items(fs, target, files[k].path@, items.drop_last());
        match items.last() {
            ImplItem::Fn(m) => {
                if m.vis.is_public() {
                    let f = method_function(m, target, files[k].path@);
                    assert(f.qualified_name.subrange(
                        0,
                        (files[k].path@ + separator()).len() as int,
                    ) =~= files[k].path@ + separator());
                    assert(has_prefix(f.qualified_name, files[k].path@ + separator()));
                    lemma_with_function_keys(before, f, files);
                }
            },
            ImplItem::Other => {},
        }
    }
}

proof fn lemma_items_keys(p: ProjectView, files: Seq<ParsedFile>, k: int, items: Seq<Item>)
    requires
        0 <= k < files.len(),
        keys_begin_with_files(p.functions, files),
    ensures
        keys_begin_with_files(ingest_items(p, files[k].path@, items).functions, files),
    decreases items.len(),
{
    if items.len() > 0 {
        lemma_items_keys(p, files, k, items.drop_last());
        let before = ingest_items(p, files[k].path@, items.drop_last());
        match items.last() {
            Item::Fn(item) => {
                let f = free_function(item, files[k].path@);
                assert(f.qualified_name.subrange(
                    0,
                    (files[k].path@ + separator()).len() as int,
                ) =~= files[k].path@ + separator());
                assert(has_prefix(f.qualified_name, files[k].path@ + separator()));
                lemma_with_function_keys(before.functions, f, files);
            },
            Item::Impl(imp) => {
                lemma_impl_items_keys(
                    before.functions,
                    crate::signature::type_text(imp.self_ty),
                    files,
                    k,
                    imp.items@,
                );
            },
            _ => {},
        }
    }
}

proof fn lemma_files_keys(all: Seq<ParsedFile>, n: int)
    requires
        0 <= n <= all.len(),
    ensures
        keys_begin_with_files(ingest_files(ProjectView::empty(), all.take(n)).functions, all),
    decreases n,
{
    if n > 0 {
        lemma_files_keys(all, n - 1);
        assert(all.take(n).drop_last() =~= all.take(n - 1));
        assert(all.take(n).last() == all[n - 1]);
        let before = ingest_files(ProjectView::empty(), all.take(n - 1));
        match all[n - 1].items {
            Some(items) => {
                lemma_items_keys(before, all, n - 1, items@);
            },
            None => {},
        }
    }
}

/// In an index built from files, every key begins with the path of one of
/// the files and a separator.
pub proof fn lemma_loaded_keys_begin_with_files(files: Seq<ParsedFile>)
    ensures
        keys_begin_with_files(ingest_files(ProjectView::empty(), files).functions, files),
{
    lemma_files_keys(files, files.len() as int);
    assert(files.take(files.len() as int) =~= files);
}

/// A key that begins with a path and a separator names a file.
pub proof fn lemma_key_names_a_file(key: Seq<char>, path: Seq<char>)
    requires
        has_prefix(key, path + separator()),
    ensures
        file_of_name(key) is Some,
{
    let at = path.len() as int;
    assert(key.subrange(at, at + 2) =~= (path + separator()).subrange(at, at + 2));
    assert((path + separator()).subrange(at, at + 2) =~= separator());
    assert(occurs_at(key, separator(), at));
    lemma_first_occurrence_meaning(key, separator());
}

/// In an index built from files, every key names a file.
pub proof fn lemma_loaded_keys_name_files(files: Seq<ParsedFile>)
    ensures
        forall|i: int|
            0 <= i < ingest_files(ProjectView::empty(), files).functions.len() ==> file_of_name(
                (#[trigger] ingest_files(ProjectView::empty(), files).functions[i]).qualified_name,
            ) is Some,
{
    let fs = ingest_files(ProjectView::empty(), files).functions;
    lemma_loaded_keys_begin_with_files(files);
    assert forall|i: int| 0 <= i < fs.len() implies file_of_name(
        (#[trigger] fs[i]).qualified_name,
    ) is Some by {
        assert(begins_with_file(fs[i].qualified_name, files));
        let k = choose|k: int|
            0 <= k < files.len() && has_prefix(
                fs[i].qualified_name,
                (#[trigger] files[k]).path@ + separator(),
            );
        lemma_key_names_a_file(fs[i].qualified_name, files[k].path@);
    }
}

/// Taking a function in keeps the keys distinct, and the function taken in
/// is then the one that stands under its key.
pub proof fn lemma_with_function(fs: Seq<FunctionView>, f: FunctionView)
    requires
        distinct(function_names(fs)),
    ensures
        distinct(function_names(with_function(fs, f))),
        position(function_names(with_function(fs, f)), f.qualified_name) matches Some(i)
            && with_function(fs, f)[i] == f,
{
    let names = function_names(fs);
    let after = with_function(fs, f);
    let names_after = function_names(after);
    match position(names, f.qualified_name) {
        Some(at) => {
            assert(names_after =~= names);
            lemma_position_found(names_after, f.qualified_name, at);
        },
        None => {
            assert(names_after =~= names.push(f.qualified_name));
            assert forall|i: int, j: int| 0 <= i < j < names_after.len() implies names_after[i]
                != names_after[j] by {
                if j == names.len() {
                    assert(names[i] != f.qualified_name);
                } else {
                    assert(names[i] != names[j]);
                }
            }
            lemma_position_found(names_after, f.qualified_name, names.len() as int);
        },
    }
}

/// Taking a type in keeps the names distinct, and the type taken in is then
/// the one that stands under its name: a later declaration replaces an
/// earlier one of the same name.
pub proof fn lemma_with_type(ts: Seq<TypeEntryView>, t: TypeEntryView)
    requires
        distinct(type_names(ts)),
    ensures
        distinct(type_names(with_type(ts, t))),
        position(type_names(with_type(ts, t)), t.item.name()) matches Some(i) && with_type(
            ts,
            t,
        )[i] == t,
{
    let names = type_names(ts);
    let after = with_type(ts, t);
    let names_after = type_names(after);
    match position(names, t.item.name()) {
        Some(at) => {
            assert(names_after =~= names);
            lemma_position_found(names_after, t.item.name(), at);
        },
        None => {
            assert(names_after =~= names.push(t.item.name()));
            assert forall|i: int, j: int| 0 <= i < j < names_after.len() implies names_after[i]
                != names_after[j] by {
                if j == names.len() {
                    assert(names[i] != t.item.name());
                } else {
                    assert(names[i] != names[j]);
                }
            }
            lemma_position_found(names_after, t.item.name(), names.len() as int);
        },
    }
}

proof fn lemma_impl_items_distinct(
    fs: Seq<FunctionView>,
    target: Seq<char>,
    file_path: Seq<char>,
    items: Seq<ImplItem>,
)
    requires
        distinct(function_names(fs)),
    ensures
        distinct(function_names(ingest_impl_items(fs, target, file_path, items))),
    decreases items.len(),
{
    if items.len() > 0 {
        lemma_impl_items_distinct(fs, target, file_path, items.drop_last());
        let before = ingest_impl_items(fs, target, file_path, items.drop_last());
        match items.last() {
            ImplItem::Fn(m) => {
                lemma_with_function(before, method_function(m, target, file_path));
            },
            ImplItem::Other => {},
        }
    }
}

proof fn lemma_items_distinct(p: ProjectView, file_path: Seq<char>, items: Seq<Item>)
    requires
        p.wf(),
    ensures
        ingest_items(p, file_path, items).wf(),
    decreases items.len(),
{
    if items.len() > 0 {
        lemma_items_distinct(p, file_path, items.drop_last());
        let before = ingest_items(p, file_path, items.drop_last());
        match items.last() {
            Item::Fn(f) => lemma_with_function(before.functions, free_function(f, file_path)),
            Item::Impl(imp) => lemma_impl_items_distinct(
                before.functions,
                type_text(imp.self_ty),
                file_path,
                imp.items@,
            ),
            Item::Struct(s) => lemma_with_type(
                before.types,
                TypeEntryView { file_path, item: TypeDeclaration::Struct(s) },
            ),
            Item::Enum(e) => lemma_with_type(
                before.types,
                TypeEntryView { file_path, item: TypeDeclaration::Enum(e) },
            ),
            Item::Trait(t) => lemma_with_type(
                before.types,
                TypeEntryView { file_path, item: TypeDeclaration::Trait(t) },
            ),
            Item::Type(a) => lemma_with_type(
                before.types,
                TypeEntryView { file_path, item: TypeDeclaration::Alias(a) },
            ),
            Item::Other => {},
        }
    }
}

/// An index built from files holds each key and each type name once.
pub proof fn lemma_loaded_is_well_formed(files: Seq<ParsedFile>)
    ensures
        ingest_files(ProjectView::empty(), files).wf(),
    decreases files.len(),
{
    if files.len() > 0 {
        lemma_loaded_is_well_formed(files.drop_last());
        let before = ingest_files(ProjectView::empty(), files.drop_last());
        match files.last().items {
            Some(items) => lemma_items_distinct(before, files.last().path@, items@),
            None => {},
        }
    }
}

} // verus!
