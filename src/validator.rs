//! Validation of a workspace of schema modules.
//!
//! Each module's imports must name modules of the workspace, and every
//! user-defined type that a definition references must resolve: a bare name
//! within the module itself, a dotted path `module.Type` within an imported
//! module. Validation is fail-fast: the first failure, in order, is reported.
use vstd::prelude::*;
use crate::ast::{DataType, Definition, Field, File, Function, definition_name};

verus! {

/// Reasons why a workspace fails validation.
#[derive(Debug, Clone, Copy, PartialEq, Eq, Structural)]
pub enum ValidationError {
    /// An imported module is not in the workspace.
    ImportedModuleNotFound,
    /// A module path cannot be split into module and type.
    ModuleImportPath,
    /// A type refers to a module that its file does not import.
    ModuleNotImported,
    /// A referenced type is not defined in the module it names.
    TypeNotFound,
}

/// Named modules of a workspace, in the order they were added.
pub type Modules = Vec<(String, File)>;

/// Whether `s` holds a dot.
pub open spec fn has_dot(s: Seq<char>) -> bool {
    exists|i: int| 0 <= i < s.len() && s[i] == '.'
}

/// Whether position `i` of `s` holds its last dot.
pub open spec fn is_last_dot(s: Seq<char>, i: int) -> bool {
    &&& 0 <= i < s.len()
    &&& s[i] == '.'
    &&& forall|j: int| i < j < s.len() ==> s[j] != '.'
}

/// Position of the last dot of `s`.
pub open spec fn last_dot(s: Seq<char>) -> int {
    choose|i: int| is_last_dot(s, i)
}

/// Relies on `str::rsplit_once`: it splits at the last occurrence of the
/// delimiter, giving the text before and after it, and gives `None` where the
/// delimiter does not occur.
#[verifier::external_body]
fn split_last_dot(s: &String) -> (r: Option<(String, String)>)
    ensures
        r is Some <==> has_dot(s@),
        r matches Some((path, name)) ==> path@ == s@.take(last_dot(s@)) && name@ == s@.skip(
            last_dot(s@) + 1,
        ),
{
    s.rsplit_once('.').map(|(path, name)| (path.to_string(), name.to_string()))
}

/// Whether the workspace has a module of this name.
pub open spec fn has_module(modules: Seq<(String, File)>, name: Seq<char>) -> bool {
    exists|i: int| 0 <= i < modules.len() && modules[i].0@ == name
}

/// The first module of this name; meaningful where there is one.
pub open spec fn module_index(modules: Seq<(String, File)>, name: Seq<char>) -> int {
    choose|i: int|
        0 <= i < modules.len() && modules[i].0@ == name && forall|j: int|
            0 <= j < i ==> modules[j].0@ != name
}

/// Whether a file defines a type of this name.
pub open spec fn file_has_type_spec(file: File, name: Seq<char>) -> bool {
    exists|i: int| 0 <= i < file.definitions@.len() && definition_name(file.definitions@[i]) == name
}

/// Whether a file imports this module path.
pub open spec fn imports_module(file: File, path: Seq<char>) -> bool {
    exists|i: int| 0 <= i < file.imports@.len() && file.imports@[i]@ == path
}

/// Resolution of a user-defined type name referenced from `file`.
pub open spec fn lookup_result(modules: Seq<(String, File)>, file: File, name: Seq<char>) -> Result<
    (),
    ValidationError,
> {
    if has_dot(name) {
        let path = name.take(last_dot(name));
        let ty_name = name.skip(last_dot(name) + 1);
        if !imports_module(file, path) {
            Err(ValidationError::ModuleNotImported)
        } else if !has_module(modules, path) {
            Err(ValidationError::ImportedModuleNotFound)
        } else if !file_has_type_spec(modules[module_index(modules, path)].1, ty_name) {
            Err(ValidationError::TypeNotFound)
        } else {
            Ok(())
        }
    } else if !file_has_type_spec(file, name) {
        Err(ValidationError::TypeNotFound)
    } else {
        Ok(())
    }
}

/// Resolution of a data type referenced from `file`: primitives always
/// resolve, containers resolve as their contents, user types by name.
pub open spec fn resolve_result(modules: Seq<(String, File)>, file: File, t: DataType) -> Result<
    (),
    ValidationError,
>
    decreases t,
{
    match t {
        DataType::Primitive(_) => Ok(()),
        DataType::Container(_, inner) => resolve_result(modules, file, *inner),
        DataType::UserType(name) => lookup_result(modules, file, name@),
    }
}

/// Whether position `i` holds the first failure of `rs`.
pub open spec fn is_first_error(rs: Seq<Result<(), ValidationError>>, i: int) -> bool {
    &&& 0 <= i < rs.len()
    &&& rs[i] is Err
    &&& forall|j: int| 0 <= j < i ==> rs[j] is Ok
}

/// The first failure of a sequence of checks, or success if none fails.
pub open spec fn first_error(rs: Seq<Result<(), ValidationError>>) -> Result<(), ValidationError> {
    if forall|i: int| 0 <= i < rs.len() ==> rs[i] is Ok {
        Ok(())
    } else {
        rs[choose|i: int| is_first_error(rs, i)]
    }
}

proof fn lemma_first_error_at(rs: Seq<Result<(), ValidationError>>, i: int)
    requires
        is_first_error(rs, i),
    ensures
        first_error(rs) == rs[i],
{
    let c = choose|c: int| is_first_error(rs, c);
    assert(is_first_error(rs, c));
    if c < i {
        assert(rs[c] is Ok);
    } else if c > i {
        assert(rs[i] is Ok);
    }
}

/// Resolution of one function's argument types: input first, then output.
pub open spec fn function_result(modules: Seq<(String, File)>, file: File, f: Function) -> Result<
    (),
    ValidationError,
> {
    match resolve_result(modules, file, f.input.1) {
        Err(e) => Err(e),
        Ok(_) => match f.output {
            Some((_, t)) => resolve_result(modules, file, t),
            None => Ok(()),
        },
    }
}

/// Resolution of one definition's referenced types, in order.
pub open spec fn definition_result(modules: Seq<(String, File)>, file: File, d: Definition) -> Result<
    (),
    ValidationError,
> {
    match d {
        Definition::Enum(_) => Ok(()),
        Definition::Interface(i) => first_error(function_results(modules, file, i.functions@)),
        Definition::Schema(s) => first_error(field_results(modules, file, s.fields@)),
    }
}

/// Resolution of each function's argument types.
pub open spec fn function_results(
    modules: Seq<(String, File)>,
    file: File,
    functions: Seq<Function>,
) -> Seq<Result<(), ValidationError>> {
    functions.map_values(|f: Function| function_result(modules, file, f))
}

/// Resolution of each field's type.
pub open spec fn field_results(modules: Seq<(String, File)>, file: File, fields: Seq<Field>) -> Seq<
    Result<(), ValidationError>,
> {
    fields.map_values(|f: Field| resolve_result(modules, file, f.field_type))
}

/// Resolution of each definition's referenced types.
pub open spec fn definition_results(
    modules: Seq<(String, File)>,
    file: File,
    definitions: Seq<Definition>,
) -> Seq<Result<(), ValidationError>> {
    definitions.map_values(|d: Definition| definition_result(modules, file, d))
}

/// Validation of each module.
pub open spec fn file_results(modules: Seq<(String, File)>) -> Seq<Result<(), ValidationError>> {
    modules.map_values(|m: (String, File)| file_result(modules, m.1))
}

/// Whether every import of `imports` names a module of the workspace.
pub open spec fn imports_found(imports: Seq<String>, modules: Seq<(String, File)>) -> bool {
    forall|i: int| 0 <= i < imports.len() ==> has_module(modules, #[trigger] imports[i]@)
}

/// Validation of one file: its imports, then its definitions in order.
pub open spec fn file_result(modules: Seq<(String, File)>, file: File) -> Result<(), ValidationError> {
    if !imports_found(file.imports@, modules) {
        Err(ValidationError::ImportedModuleNotFound)
    } else {
        first_error(definition_results(modules, file, file.definitions@))
    }
}

/// Validation of every module of a workspace, in order.
pub open spec fn workspace_result(modules: Seq<(String, File)>) -> Result<(), ValidationError> {
    first_error(file_results(modules))
}

/// Where the first module named `name` stands.
fn find_module(modules: &Modules, name: &String) -> (r: Option<usize>)
    ensures
        r is Some <==> has_module(modules@, name@),
        r matches Some(i) ==> i < modules@.len() && i == module_index(modules@, name@),
{
    let mut i: usize = 0;
    while i < modules.len()
        invariant
            0 <= i <= modules@.len(),
            forall|j: int| 0 <= j < i ==> modules@[j].0@ != name@,
        decreases modules@.len() - i,
    {
        if modules[i].0 == *name {
            proof {
                let c = module_index(modules@, name@);
                assert(0 <= c < modules@.len() && modules@[c].0@ == name@ && forall|j: int|
                    0 <= j < c ==> modules@[j].0@ != name@);
                if c < i {
                } else if c > i as int {
                    assert(modules@[i as int].0@ == name@);
                }
            }
            return Some(i);
        }
        i = i + 1;
    }
    None
}

/// Checks that every import names a module of the workspace: at the first
/// one that does not, fails with `ImportedModuleNotFound`.
pub fn attest_imports(imports: &[String], modules: &Modules) -> (r: Result<(), ValidationError>)
    ensures
        r is Ok <==> imports_found(imports@, modules@),
        r is Err ==> r == Err::<(), ValidationError>(ValidationError::ImportedModuleNotFound),
{
    let mut i: usize = 0;
    while i < imports.len()
        invariant
            0 <= i <= imports@.len(),
            forall|j: int| 0 <= j < i ==> has_module(modules@, #[trigger] imports@[j]@),
        decreases imports@.len() - i,
    {
        if find_module(modules, &imports[i]).is_none() {
            return Err(ValidationError::ImportedModuleNotFound);
        }
        i = i + 1;
    }
    Ok(())
}

/// Whether `file` defines a type named `ty_name`.
fn file_has_type(file: &File, ty_name: &String) -> (r: bool)
    ensures
        r == file_has_type_spec(*file, ty_name@),
{
    let mut i: usize = 0;
    while i < file.definitions.len()
        invariant
            0 <= i <= file.definitions@.len(),
            forall|j: int| 0 <= j < i ==> definition_name(file.definitions@[j]) != ty_name@,
        decreases file.definitions@.len() - i,
    {
        let found = match &file.definitions[i] {
            Definition::Interface(interface) => interface.name == *ty_name,
            Definition::Schema(schema) => schema.name == *ty_name,
            Definition::Enum(misty_enum) => misty_enum.name == *ty_name,
        };
        if found {
            return true;
        }
        i = i + 1;
    }
    false
}

/// Whether `file` imports `path`.
fn file_imports(file: &File, path: &String) -> (r: bool)
    ensures
        r == imports_module(*file, path@),
{
    let mut i: usize = 0;
    while i < file.imports.len()
        invariant
            0 <= i <= file.imports@.len(),
            forall|j: int| 0 <= j < i ==> file.imports@[j]@ != path@,
        decreases file.imports@.len() - i,
    {
        if file.imports[i] == *path {
            return true;
        }
        i = i + 1;
    }
    false
}

/// Resolves a user-defined type name referenced from `file`.
///
/// A dotted name is split at its last dot into module path and type name: the
/// file must import the path (`ModuleNotImported`), the workspace must hold the
/// module (`ImportedModuleNotFound`), and the module must define the type
/// (`TypeNotFound`). A bare name must be defined in `file` itself.
fn lookup_type(modules: &Modules, file: &File, ty_name: &String) -> (r: Result<(), ValidationError>)
    ensures
        r == lookup_result(modules@, *file, ty_name@),
{
    match split_last_dot(ty_name) {
        Some((import_path, name)) => {
            if !file_imports(file, &import_path) {
                return Err(ValidationError::ModuleNotImported);
            }
            let index = match find_module(modules, &import_path) {
                Some(index) => index,
                None => {
                    return Err(ValidationError::ImportedModuleNotFound);
                },
            };
            if !file_has_type(&modules[index].1, &name) {
                return Err(ValidationError::TypeNotFound);
            }
            Ok(())
        },
        None => {
            if !file_has_type(file, ty_name) {
                return Err(ValidationError::TypeNotFound);
            }
            Ok(())
        },
    }
}

/// Resolves a data type referenced from `file` against the workspace:
/// primitives always resolve, containers resolve as their contents, and
/// user-defined types are looked up by name. Fails at the first failure.
pub fn resolve_data_type(modules: &Modules, file: &File, data_type: &DataType) -> (r: Result<
    (),
    ValidationError,
>)
    ensures
        r == resolve_result(modules@, *file, *data_type),
    decreases data_type,
{
    match data_type {
        DataType::Primitive(_) => Ok(()),
        DataType::Container(_, inner) => {
            let inner_ref: &DataType = inner;
            resolve_data_type(modules, file, inner_ref)
        },
        DataType::UserType(ty_name) => lookup_type(modules, file, ty_name),
    }
}

/// Validates one function's argument types: input first, then output.
fn validate_function(modules: &Modules, file: &File, function: &Function) -> (r: Result<
    (),
    ValidationError,
>)
    ensures
        r == function_result(modules@, *file, *function),
{
    match resolve_data_type(modules, file, &function.input.1) {
        Err(e) => Err(e),
        Ok(()) => match &function.output {
            Some((_, argument)) => resolve_data_type(modules, file, argument),
            None => Ok(()),
        },
    }
}

/// Validates the types that one definition references, in order.
fn validate_definition(modules: &Modules, file: &File, definition: &Definition) -> (r: Result<
    (),
    ValidationError,
>)
    ensures
        r == definition_result(modules@, *file, *definition),
{
    match definition {
        Definition::Enum(_) => Ok(()),
        Definition::Interface(interface) => {
            let ghost rs = function_results(modules@, *file, interface.functions@);
            let mut i: usize = 0;
            while i < interface.functions.len()
                invariant
                    *definition == Definition::Interface(*interface),
                    0 <= i <= interface.functions@.len(),
                    rs.len() == interface.functions@.len(),
                    forall|j: int| 0 <= j < rs.len() ==> rs[j] == function_result(
                        modules@,
                        *file,
                        interface.functions@[j],
                    ),
                    forall|j: int| 0 <= j < i ==> rs[j] is Ok,
                decreases interface.functions@.len() - i,
            {
                let r = validate_function(modules, file, &interface.functions[i]);
                if r.is_err() {
                    proof {
                        lemma_first_error_at(rs, i as int);
                        assert(first_error(rs) == r);
                        assert(rs == function_results(modules@, *file, interface.functions@));
                        assert(definition_result(modules@, *file, Definition::Interface(*interface))
                            == first_error(function_results(modules@, *file, interface.functions@)));
                    }
                    return r;
                }
                i = i + 1;
            }
            Ok(())
        },
        Definition::Schema(schema) => {
            let ghost rs = field_results(modules@, *file, schema.fields@);
            let mut i: usize = 0;
            while i < schema.fields.len()
                invariant
                    *definition == Definition::Schema(*schema),
                    0 <= i <= schema.fields@.len(),
                    rs.len() == schema.fields@.len(),
                    forall|j: int| 0 <= j < rs.len() ==> rs[j] == resolve_result(
                        modules@,
                        *file,
                        schema.fields@[j].field_type,
                    ),
                    forall|j: int| 0 <= j < i ==> rs[j] is Ok,
                decreases schema.fields@.len() - i,
            {
                let r = resolve_data_type(modules, file, &schema.fields[i].field_type);
                if r.is_err() {
                    proof {
                        lemma_first_error_at(rs, i as int);
                        assert(first_error(rs) == r);
                        assert(rs == field_results(modules@, *file, schema.fields@));
                        assert(definition_result(modules@, *file, Definition::Schema(*schema))
                            == first_error(field_results(modules@, *file, schema.fields@)));
                    }
                    return r;
                }
                i = i + 1;
            }
            Ok(())
        },
    }
}

/// A set of named modules to be validated against each other.
pub struct Workspace {
    package_local_modules: Modules,
    validated: bool,
}

impl Workspace {
    /// The modules, in the order they were first added.
    pub closed spec fn modules_spec(&self) -> Seq<(String, File)> {
        self.package_local_modules@
    }

    /// Whether a validation of the workspace has succeeded.
    pub closed spec fn is_validated(&self) -> bool {
        self.validated
    }

    /// An empty workspace, not validated.
    pub fn new() -> (r: Workspace)
        ensures
            r.modules_spec() == Seq::<(String, File)>::empty(),
            !r.is_validated(),
    {
        Workspace { package_local_modules: Vec::new(), validated: false }
    }

    /// Adds `module` under `path`, replacing a module already added
    /// under that path.
    pub fn add_local_module(&mut self, path: &str, module: File)
        ensures
            final(self).is_validated() == old(self).is_validated(),
            has_module(old(self).modules_spec(), path@) ==> {
                let i = module_index(old(self).modules_spec(), path@);
                &&& final(self).modules_spec().len() == old(self).modules_spec().len()
                &&& final(self).modules_spec()[i].0@ == path@
                &&& final(self).modules_spec()[i].1 == module
                &&& forall|j: int| 0 <= j < old(self).modules_spec().len() && j != i
                    ==> final(self).modules_spec()[j] == old(self).modules_spec()[j]
            },
            !has_module(old(self).modules_spec(), path@) ==> {
                let n = old(self).modules_spec().len();
                &&& final(self).modules_spec().len() == n + 1
                &&& final(self).modules_spec()[n as int].0@ == path@
                &&& final(self).modules_spec()[n as int].1 == module
                &&& forall|j: int| 0 <= j < n ==> final(self).modules_spec()[j] == old(self).modules_spec()[j]
            },
    {
        let name = path.to_owned();
        match find_module(&self.package_local_modules, &name) {
            Some(i) => {
                self.package_local_modules.set(i, (name, module));
            },
            None => {
                self.package_local_modules.push((name, module));
            },
        }
    }

    /// Validates every module of the workspace, in order, and stops at the
    /// first failure. On success the workspace is marked validated.
    pub fn validate(&mut self) -> (r: Result<(), ValidationError>)
        ensures
            r == workspace_result(old(self).modules_spec()),
            final(self).modules_spec() == old(self).modules_spec(),
            final(self).is_validated() == (r is Ok || old(self).is_validated()),
    {
        let ghost ms = self.package_local_modules@;
        let ghost rs = file_results(ms);
        let mut i: usize = 0;
        while i < self.package_local_modules.len()
            invariant
                self.package_local_modules@ == ms,
                ms == old(self).package_local_modules@,
                self.validated == old(self).validated,
                0 <= i <= ms.len(),
                rs.len() == ms.len(),
                forall|j: int| 0 <= j < rs.len() ==> rs[j] == file_result(ms, ms[j].1),
                forall|j: int| 0 <= j < i ==> rs[j] is Ok,
            decreases ms.len() - i,
        {
            let r = self.validate_file(&self.package_local_modules[i].1);
            if r.is_err() {
                proof {
                    lemma_first_error_at(rs, i as int);
                    assert(first_error(rs) == r);
                    assert(rs == file_results(old(self).package_local_modules@));
                    assert(workspace_result(old(self).modules_spec())
                        == first_error(file_results(old(self).package_local_modules@)));
                }
                return r;
            }
            i = i + 1;
        }
        self.validated = true;
        Ok(())
    }

    /// Validates one file against the workspace: its imports, then each
    /// definition in order. Stops at the first failure.
    fn validate_file(&self, file: &File) -> (r: Result<(), ValidationError>)
        ensures
            r == file_result(self.modules_spec(), *file),
    {
        let modules = &self.package_local_modules;
        let imported = attest_imports(file.imports.as_slice(), modules);
        if imported.is_err() {
            return imported;
        }
        let ghost rs = definition_results(modules@, *file, file.definitions@);
        let mut i: usize = 0;
        while i < file.definitions.len()
            invariant
                modules@ == self.modules_spec(),
                imports_found(file.imports@, modules@),
                0 <= i <= file.definitions@.len(),
                rs.len() == file.definitions@.len(),
                forall|j: int| 0 <= j < rs.len() ==> rs[j] == definition_result(
                    modules@,
                    *file,
                    file.definitions@[j],
                ),
                forall|j: int| 0 <= j < i ==> rs[j] is Ok,
            decreases file.definitions@.len() - i,
        {
            let r = validate_definition(modules, file, &file.definitions[i]);
            if r.is_err() {
                proof {
                    lemma_first_error_at(rs, i as int);
                    assert(first_error(rs) == r);
                    assert(rs == definition_results(modules@, *file, file.definitions@));
                    assert(self.modules_spec() == modules@);
                    assert(imports_found(file.imports@, modules@));
                    assert(file_result(modules@, *file)
                        == first_error(definition_results(modules@, *file, file.definitions@)));
                }
                return r;
            }
            i = i + 1;
        }
        Ok(())
    }

    /// The modules of the workspace, in the order they were first added.
    pub fn package_local_modules(&self) -> (r: &Modules)
        ensures
            r@ == self.modules_spec(),
    {
        &self.package_local_modules
    }

    /// Whether a validation of the workspace has succeeded.
    pub fn validated(&self) -> (r: bool)
        ensures
            r == self.is_validated(),
    {
        self.validated
    }
}

impl Default for Workspace {
    fn default() -> (r: Workspace)
        ensures
            r.modules_spec() == Seq::<(String, File)>::empty(),
            !r.is_validated(),
    {
        Workspace::new()
    }
}

} // verus!
