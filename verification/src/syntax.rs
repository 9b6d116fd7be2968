//! The module-level syntax of a source file: what the parser found, as plain values.
use oxc::ast::ast;
use vstd::prelude::*;

use crate::text;
use crate::types::ImportKind;

verus! {

/// A name bound by an import declaration, and whether `type` stands before it.
pub struct ImportedName {
    pub local: String,
    pub kind: ImportKind,
    pub type_only: bool,
}

/// A name of an export clause, with the name it is exported under.
pub struct ExportedName {
    pub local: String,
    pub exported: String,
}

/// A declaration; `start` is the byte offset at which it begins.
pub enum Decl {
    Function { id: Option<String>, start: usize },
    Variable { keyword: String, bindings: Vec<Option<String>> },
    Class { id: Option<String> },
    Interface { name: String },
    TypeAlias { name: String, start: usize },
    Enum { name: String },
    Other,
}

/// What an `export default` exports.
pub enum DefaultDecl {
    Function { id: Option<String>, start: usize },
    Class { id: Option<String> },
    Other,
}

/// A statement at the top level of a module; `type_only` says that an import is an `import type`.
pub enum Stmt {
    Import { source: String, type_only: bool, names: Option<Vec<ImportedName>> },
    ExportNamed { declaration: Option<Decl>, source: Option<String>, names: Vec<ExportedName> },
    ExportDefault(DefaultDecl),
    ExportAll { source: String, exported: Option<String> },
    Declared(Decl),
    Other,
}

/// A parsed module: its top-level statements, whether the parser gave up on it, and how many errors
/// it found.
pub struct Module {
    pub panicked: bool,
    pub errors: usize,
    pub body: Vec<Stmt>,
}

/// A symbol with the index of its scope and that of the outermost scope.
pub struct ScopedSymbol {
    pub name: String,
    pub scope: usize,
    pub root_scope: usize,
    pub references: usize,
}

/// What a declaration is.
#[verifier::ext_equal]
pub enum DeclView {
    Function { id: Option<Seq<char>>, start: usize },
    Variable { keyword: Seq<char>, bindings: Seq<Option<Seq<char>>> },
    Class { id: Option<Seq<char>> },
    Interface { name: Seq<char> },
    TypeAlias { name: Seq<char>, start: usize },
    Enum { name: Seq<char> },
    Other,
}

/// The names of some bindings.
pub open spec fn binding_views(bindings: Seq<Option<String>>) -> Seq<Option<Seq<char>>> {
    bindings.map_values(|b: Option<String>| text::opt_view(b))
}

impl View for Decl {
    type V = DeclView;

    open spec fn view(&self) -> DeclView {
        match *self {
            Decl::Function { id, start } => DeclView::Function { id: text::opt_view(id), start },
            Decl::Variable { keyword, bindings } => DeclView::Variable {
                keyword: keyword@,
                bindings: binding_views(bindings@),
            },
            Decl::Class { id } => DeclView::Class { id: text::opt_view(id) },
            Decl::Interface { name } => DeclView::Interface { name: name@ },
            Decl::TypeAlias { name, start } => DeclView::TypeAlias { name: name@, start },
            Decl::Enum { name } => DeclView::Enum { name: name@ },
            Decl::Other => DeclView::Other,
        }
    }
}

/// What a default export is.
#[verifier::ext_equal]
pub enum DefaultView {
    Function { id: Option<Seq<char>>, start: usize },
    Class { id: Option<Seq<char>> },
    Other,
}

impl View for DefaultDecl {
    type V = DefaultView;

    open spec fn view(&self) -> DefaultView {
        match *self {
            DefaultDecl::Function { id, start } => DefaultView::Function {
                id: text::opt_view(id),
                start,
            },
            DefaultDecl::Class { id } => DefaultView::Class { id: text::opt_view(id) },
            DefaultDecl::Other => DefaultView::Other,
        }
    }
}

/// What a statement is: imported names with their kinds, and exported names with those they are
/// exported under.
#[verifier::ext_equal]
pub enum StmtView {
    Import {
        source: Seq<char>,
        type_only: bool,
        names: Option<Seq<(Seq<char>, ImportKind, bool)>>,
    },
    ExportNamed {
        declaration: Option<DeclView>,
        source: Option<Seq<char>>,
        names: Seq<(Seq<char>, Seq<char>)>,
    },
    ExportDefault(DefaultView),
    ExportAll { source: Seq<char>, exported: Option<Seq<char>> },
    Declared(DeclView),
    Other,
}

/// Some imported names with their kinds, and whether `type` stands before them.
pub open spec fn imported_views(names: Seq<ImportedName>) -> Seq<(Seq<char>, ImportKind, bool)> {
    names.map_values(|n: ImportedName| (n.local@, n.kind, n.type_only))
}

/// Some exported names with those they are exported under.
pub open spec fn exported_views(names: Seq<ExportedName>) -> Seq<(Seq<char>, Seq<char>)> {
    names.map_values(|n: ExportedName| (n.local@, n.exported@))
}

impl View for Stmt {
    type V = StmtView;

    open spec fn view(&self) -> StmtView {
        match *self {
            Stmt::Import { source, type_only, names } => StmtView::Import {
                source: source@,
                type_only,
                names: match names {
                    Some(n) => Some(imported_views(n@)),
                    None => None,
                },
            },
            Stmt::ExportNamed { declaration, source, names } => StmtView::ExportNamed {
                declaration: match declaration {
                    Some(d) => Some(d@),
                    None => None,
                },
                source: text::opt_view(source),
                names: exported_views(names@),
            },
            Stmt::ExportDefault(d) => StmtView::ExportDefault(d@),
            Stmt::ExportAll { source, exported } => StmtView::ExportAll {
                source: source@,
                exported: text::opt_view(exported),
            },
            Stmt::Declared(d) => StmtView::Declared(d@),
            Stmt::Other => StmtView::Other,
        }
    }
}

/// What some statements are.
pub open spec fn stmt_views(body: Seq<Stmt>) -> Seq<StmtView> {
    body.map_values(|s: Stmt| s@)
}

/// What a parsed module is.
#[verifier::ext_equal]
pub struct ModuleView {
    pub panicked: bool,
    pub errors: usize,
    pub body: Seq<StmtView>,
}

impl View for Module {
    type V = ModuleView;

    open spec fn view(&self) -> ModuleView {
        ModuleView {
            panicked: self.panicked,
            errors: self.errors,
            body: stmt_views(self.body@),
        }
    }
}

/// What a symbol with its scope is.
#[verifier::ext_equal]
pub struct ScopedView {
    pub name: Seq<char>,
    pub scope: usize,
    pub root_scope: usize,
    pub references: usize,
}

impl View for ScopedSymbol {
    type V = ScopedView;

    open spec fn view(&self) -> ScopedView {
        ScopedView {
            name: self.name@,
            scope: self.scope,
            root_scope: self.root_scope,
            references: self.references,
        }
    }
}

/// What some symbols are.
pub open spec fn scoped_views(symbols: Seq<ScopedSymbol>) -> Seq<ScopedView> {
    symbols.map_values(|s: ScopedSymbol| s@)
}

#[verifier::external_type_specification]
#[verifier::external_body]
pub struct ExStatement<'a>(ast::Statement<'a>);

#[verifier::external_type_specification]
#[verifier::external_body]
pub struct ExDeclaration<'a>(ast::Declaration<'a>);

#[verifier::external_type_specification]
#[verifier::external_body]
pub struct ExVariableDeclaration<'a>(ast::VariableDeclaration<'a>);

#[verifier::external_type_specification]
#[verifier::external_body]
pub struct ExBindingIdentifier<'a>(ast::BindingIdentifier<'a>);

#[verifier::external_type_specification]
#[verifier::external_body]
pub struct ExImportDeclarationSpecifier<'a>(ast::ImportDeclarationSpecifier<'a>);

#[verifier::external_type_specification]
#[verifier::external_body]
pub struct ExExportNamedDeclaration<'a>(ast::ExportNamedDeclaration<'a>);

#[verifier::external_type_specification]
#[verifier::external_body]
pub struct ExExportDefaultDeclarationKind<'a>(ast::ExportDefaultDeclarationKind<'a>);

#[verifier::external_type_specification]
#[verifier::external_body]
pub struct ExScoping(oxc::semantic::Scoping);

/// The name in an `oxc` binding identifier, where there is one.
#[verifier::external_body]
fn id_name(id: &Option<ast::BindingIdentifier<'_>>) -> Option<String> {
    id.as_ref().map(|i| i.name.to_string())
}

/// An `oxc` import specifier with its local name and kind, and whether `type` stands before it.
#[verifier::external_body]
fn imported_name(spec: &ast::ImportDeclarationSpecifier<'_>) -> ImportedName {
    let (kind, type_only) = match spec {
        ast::ImportDeclarationSpecifier::ImportSpecifier(s) =>
            (ImportKind::Named, s.import_kind.is_type()),
        ast::ImportDeclarationSpecifier::ImportDefaultSpecifier(_) => (ImportKind::Default, false),
        ast::ImportDeclarationSpecifier::ImportNamespaceSpecifier(_) =>
            (ImportKind::Namespace, false),
    };
    ImportedName { local: spec.local().name.to_string(), kind, type_only }
}

/// An `oxc` variable declaration; a binding that is no plain identifier has no name.
#[verifier::external_body]
fn variable_of(var: &ast::VariableDeclaration<'_>) -> Decl {
    let bindings = var.declarations.iter().map(|d| match &d.id {
        ast::BindingPattern::BindingIdentifier(id) => Some(id.name.to_string()),
        _ => None,
    });
    Decl::Variable { keyword: var.kind.as_str().to_string(), bindings: bindings.collect() }
}

/// An `oxc` declaration, variant by variant.
#[verifier::external_body]
fn declaration_of(decl: &ast::Declaration<'_>) -> Decl {
    match decl {
        ast::Declaration::FunctionDeclaration(f) =>
            Decl::Function { id: id_name(&f.id), start: f.span.start as usize },
        ast::Declaration::VariableDeclaration(v) => variable_of(v),
        ast::Declaration::ClassDeclaration(c) => Decl::Class { id: id_name(&c.id) },
        ast::Declaration::TSInterfaceDeclaration(i) => Decl::Interface { name: i.id.name.to_string() },
        ast::Declaration::TSTypeAliasDeclaration(t) =>
            Decl::TypeAlias { name: t.id.name.to_string(), start: t.span.start as usize },
        ast::Declaration::TSEnumDeclaration(e) => Decl::Enum { name: e.id.name.to_string() },
        _ => Decl::Other,
    }
}

/// What an `oxc` default export exports, variant by variant.
#[verifier::external_body]
fn default_of(decl: &ast::ExportDefaultDeclarationKind<'_>) -> DefaultDecl {
    match decl {
        ast::ExportDefaultDeclarationKind::FunctionDeclaration(f) =>
            DefaultDecl::Function { id: id_name(&f.id), start: f.span.start as usize },
        ast::ExportDefaultDeclarationKind::ClassDeclaration(c) =>
            DefaultDecl::Class { id: id_name(&c.id) },
        _ => DefaultDecl::Other,
    }
}

/// An `oxc` export clause with its declaration, its source and its names.
#[verifier::external_body]
fn export_of(export: &ast::ExportNamedDeclaration<'_>) -> Stmt {
    let names = export.specifiers.iter().map(|s| ExportedName {
        local: s.local.to_string(),
        exported: s.exported.to_string(),
    });
    Stmt::ExportNamed {
        declaration: export.declaration.as_ref().map(declaration_of),
        source: export.source.as_ref().map(|s| s.value.to_string()),
        names: names.collect(),
    }
}

/// An `oxc` statement, variant by variant.
#[verifier::external_body]
fn statement_of(stmt: &ast::Statement<'_>) -> Stmt {
    match stmt {
        ast::Statement::ImportDeclaration(i) => Stmt::Import {
            source: i.source.value.to_string(),
            type_only: i.import_kind.is_type(),
            names: i.specifiers.as_ref().map(|v| v.iter().map(imported_name).collect()),
        },
        ast::Statement::ExportNamedDeclaration(e) => export_of(e),
        ast::Statement::ExportDefaultDeclaration(e) => Stmt::ExportDefault(default_of(&e.declaration)),
        ast::Statement::ExportAllDeclaration(e) => Stmt::ExportAll {
            source: e.source.value.to_string(),
            exported: e.exported.as_ref().map(|n| n.to_string()),
        },
        _ => stmt.as_declaration().map_or(Stmt::Other, |d| Stmt::Declared(declaration_of(d))),
    }
}

/// The symbols that `oxc`'s scope analysis found, in its order, each with the indices of its scope
/// and of the outermost scope, and with the number of references resolved to it.
#[verifier::external_body]
fn symbols_of(scoping: &oxc::semantic::Scoping) -> Vec<ScopedSymbol> {
    let symbols = scoping.symbol_ids().map(|id| ScopedSymbol {
        name: scoping.symbol_name(id).to_string(),
        scope: scoping.symbol_scope_id(id).index(),
        root_scope: scoping.root_scope_id().index(),
        references: scoping.get_resolved_reference_ids(id).len(),
    });
    symbols.collect()
}

/// The module that the parser makes of a source text under a file name; nothing where the name's
/// extension is not one of JavaScript or TypeScript.
pub uninterp spec fn module_syntax(path: Seq<char>, source: Seq<char>) -> Option<ModuleView>;

/// The symbols that scope analysis finds in a source text under a file name.
pub uninterp spec fn module_symbols(path: Seq<char>, source: Seq<char>) -> Seq<ScopedView>;

/// `oxc::parser::Parser::parse` on `source`, read as `oxc::span::SourceType::from_path` says of
/// `path`. What comes back depends on the two texts alone and goes by the name `module_syntax`.
#[verifier::external_body]
pub(crate) fn parse_module(path: &str, source: &str) -> (r: Option<Module>)
    ensures
        module_syntax(path@, source@) == (match r {
            Some(module) => Some(module@),
            None => None,
        }),
{
    let allocator = oxc::allocator::Allocator::default();
    let kind = oxc::span::SourceType::from_path(path).ok()?;
    let parsed = oxc::parser::Parser::new(&allocator, source, kind).parse();
    let body = parsed.program.body.iter().map(statement_of).collect();
    Some(Module { panicked: parsed.panicked, errors: parsed.errors.len(), body })
}

/// `oxc::semantic::SemanticBuilder::build` on the program that the parser makes of `source`,
/// read as `oxc::span::SourceType::from_path` says of `path`. The symbols depend on the two texts
/// alone and go by the name `module_symbols`; there are none where `path` has no known extension.
#[verifier::external_body]
pub(crate) fn resolve_symbols(path: &str, source: &str) -> (r: Option<Vec<ScopedSymbol>>)
    ensures
        r is Some == module_syntax(path@, source@) is Some,
        r is Some ==> scoped_views(r->0@) == module_symbols(path@, source@),
{
    let allocator = oxc::allocator::Allocator::default();
    let kind = oxc::span::SourceType::from_path(path).ok()?;
    let parsed = oxc::parser::Parser::new(&allocator, source, kind).parse();
    let builder = oxc::semantic::SemanticBuilder::new().with_check_syntax_error(true);
    let built = builder.build(&parsed.program);
    Some(symbols_of(built.semantic.scoping()))
}

/// What is said of statements is all that stands in them, at its place: the names of an import with
/// their kinds and whether they are types, the names of an export with those that they are exported
/// under, and the declarations.
pub proof fn law_statements(body: Seq<Stmt>, i: int, k: int)
    requires
        0 <= i < body.len(),
    ensures
        stmt_views(body).len() == body.len(),
        match body[i] {
            Stmt::Import { source, type_only, names } => {
                &&& stmt_views(body)[i] matches StmtView::Import {
                    source: s,
                    type_only: t,
                    names: n,
                } && s == source@ && t == type_only && n is Some == names is Some && (names is Some
                    ==> n->0.len() == names->0@.len() && (0 <= k < names->0@.len() ==> n->0[k] == (
                    names->0@[k].local@,
                    names->0@[k].kind,
                    names->0@[k].type_only,
                )))
            },
            Stmt::ExportNamed { declaration, source, names } => {
                &&& stmt_views(body)[i] matches StmtView::ExportNamed {
                    declaration: d,
                    source: s,
                    names: n,
                } && d is Some == declaration is Some && (declaration is Some ==> d->0
                    == declaration->0@) && s is Some == source is Some && (source is Some ==> s->0
                    == source->0@) && n.len() == names@.len() && (0 <= k < names@.len() ==> n[k] == (
                    names@[k].local@,
                    names@[k].exported@,
                ))
            },
            Stmt::ExportDefault(d) => stmt_views(body)[i] == StmtView::ExportDefault(d@),
            Stmt::ExportAll { source, exported } => {
                &&& stmt_views(body)[i] matches StmtView::ExportAll { source: s, exported: e } && s
                    == source@ && e is Some == exported is Some && (exported is Some ==> e->0
                    == exported->0@)
            },
            Stmt::Declared(d) => stmt_views(body)[i] == StmtView::Declared(d@),
            Stmt::Other => stmt_views(body)[i] == StmtView::Other,
        },
{
}

/// What is said of a declaration is its name, what it binds, and where it begins.
pub proof fn law_declarations(decl: Decl, k: int)
    ensures
        match decl {
            Decl::Function { id: Some(name), start } => decl@ == (DeclView::Function {
                id: Some(name@),
                start,
            }),
            Decl::Function { id: None, start } => decl@ == (DeclView::Function { id: None, start }),
            Decl::Variable { keyword, bindings } => {
                &&& decl@ matches DeclView::Variable { keyword: w, bindings: b } && w == keyword@
                    && b.len() == bindings@.len() && (0 <= k < b.len() ==> b[k] is Some
                    == bindings@[k] is Some && (b[k] is Some ==> b[k]->0 == bindings@[k]->0@))
            },
            Decl::Class { id: Some(name) } => decl@ == (DeclView::Class { id: Some(name@) }),
            Decl::Class { id: None } => decl@ == (DeclView::Class { id: None }),
            Decl::Interface { name } => decl@ == (DeclView::Interface { name: name@ }),
            Decl::TypeAlias { name, start } => decl@ == (DeclView::TypeAlias { name: name@, start }),
            Decl::Enum { name } => decl@ == (DeclView::Enum { name: name@ }),
            Decl::Other => decl@ == DeclView::Other,
        },
{
}

/// What is said of symbols is the name of each, its scope, and how often it is referred to.
pub proof fn law_scoped_symbols(symbols: Seq<ScopedSymbol>, i: int)
    requires
        0 <= i < symbols.len(),
    ensures
        scoped_views(symbols).len() == symbols.len(),
        scoped_views(symbols)[i].name == symbols[i].name@,
        scoped_views(symbols)[i].scope == symbols[i].scope,
        scoped_views(symbols)[i].root_scope == symbols[i].root_scope,
        scoped_views(symbols)[i].references == symbols[i].references,
{
}

}
