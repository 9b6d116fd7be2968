//! Analysis of TypeScript and JavaScript sources: imports, exports, symbols and signatures.
use vstd::prelude::*;

use crate::lists;
use crate::syntax;
use crate::syntax::{
    Decl, DeclView, DefaultDecl, DefaultView, ExportedName, ImportedName, ScopedSymbol, ScopedView,
    Stmt, StmtView,
};
use crate::text;
use crate::text::CharClass;
use crate::types;
use crate::types::{Export, ExportKind, FileAnalysis, Import, ImportKind, ReExport, SymbolInfo};

verus! {

/// Why a file has no analysis.
#[derive(Debug)]
pub enum AnalyzeError {
    /// The extension of the path is not one of JavaScript or TypeScript.
    UnsupportedFileType { path: String },
    /// The parser gave up on the source.
    ParserPanicked { path: String },
}

impl AnalyzeError {
    /// The text of the error.
    pub open spec fn message_text(&self) -> Seq<char> {
        match self {
            AnalyzeError::UnsupportedFileType { path } => "Unsupported file type: "@ + path@,
            AnalyzeError::ParserPanicked { path } => "Parser panicked on "@ + path@,
        }
    }

    /// The error in words.
    pub fn message(&self) -> (r: String)
        ensures
            r@ == self.message_text(),
    {
        match self {
            AnalyzeError::UnsupportedFileType { path } =>
                "Unsupported file type: ".to_string().concat(path.as_str()),
            AnalyzeError::ParserPanicked { path } =>
                "Parser panicked on ".to_string().concat(path.as_str()),
        }
    }
}

// ---------------------------------------------------------------------------------------------
// Imports, exports and symbols
// ---------------------------------------------------------------------------------------------

/// The imports of a statement: one for each name that an import declaration binds. It stands for a
/// type alone where `type` stands before the name or before all names.
pub open spec fn stmt_imports(stmt: StmtView) -> Seq<(Seq<char>, Seq<char>, ImportKind, bool)> {
    match stmt {
        StmtView::Import { source, type_only, names: Some(names) } => names.map_values(
            |n: (Seq<char>, ImportKind, bool)| (source, n.0, n.1, type_only || n.2),
        ),
        _ => Seq::empty(),
    }
}

/// The variables that some bindings export; a destructuring binding exports none.
pub open spec fn binding_exports(bindings: Seq<Option<Seq<char>>>) -> Seq<(Seq<char>, ExportKind)>
    decreases bindings.len(),
{
    if bindings.len() == 0 {
        Seq::empty()
    } else {
        let before = binding_exports(bindings.drop_last());
        match bindings.last() {
            Some(name) => before.push((name, ExportKind::Variable)),
            None => before,
        }
    }
}

/// The name of a declaration that has one, exported as `kind`.
pub open spec fn named_export(id: Option<Seq<char>>, kind: ExportKind) -> Seq<
    (Seq<char>, ExportKind),
> {
    match id {
        Some(name) => seq![(name, kind)],
        None => Seq::empty(),
    }
}

/// The exports of an exported declaration.
pub open spec fn decl_exports(decl: DeclView) -> Seq<(Seq<char>, ExportKind)> {
    match decl {
        DeclView::Function { id, .. } => named_export(id, ExportKind::Function),
        DeclView::Variable { bindings, .. } => binding_exports(bindings),
        DeclView::Class { id } => named_export(id, ExportKind::Class),
        DeclView::Interface { name } => seq![(name, ExportKind::Interface)],
        DeclView::TypeAlias { name, .. } => seq![(name, ExportKind::TypeAlias)],
        DeclView::Enum { name } => seq![(name, ExportKind::Enum)],
        DeclView::Other => Seq::empty(),
    }
}

/// The names that a statement declares, exported or not, with their kinds.
pub open spec fn stmt_declares(stmt: StmtView) -> Seq<(Seq<char>, ExportKind)> {
    match stmt {
        StmtView::Declared(decl) => decl_exports(decl),
        StmtView::ExportNamed { declaration: Some(decl), .. } => decl_exports(decl),
        StmtView::ExportDefault(DefaultView::Function { id, .. }) =>
            named_export(id, ExportKind::Function),
        StmtView::ExportDefault(DefaultView::Class { id }) => named_export(id, ExportKind::Class),
        _ => Seq::empty(),
    }
}

/// The names that a module declares with their kinds, statement by statement.
pub open spec fn module_declares(body: Seq<StmtView>) -> Seq<(Seq<char>, ExportKind)>
    decreases body.len(),
{
    if body.len() == 0 {
        Seq::empty()
    } else {
        module_declares(body.drop_last()) + stmt_declares(body.last())
    }
}

/// The kind of the first declaration of a name, or `Variable` where there is none.
pub open spec fn kind_in(declared: Seq<(Seq<char>, ExportKind)>, name: Seq<char>) -> ExportKind
    decreases declared.len(),
{
    if declared.len() == 0 {
        ExportKind::Variable
    } else if declared[0].0 == name {
        declared[0].1
    } else {
        kind_in(declared.drop_first(), name)
    }
}

/// The kind of the declaration of a name in a module, or `Variable` where there is none.
pub open spec fn kind_of(body: Seq<StmtView>, name: Seq<char>) -> ExportKind {
    kind_in(module_declares(body), name)
}

/// The exports of a statement of the module `body`. A list without a source exports each local
/// name under the other one, with the kind of its declaration.
pub open spec fn stmt_exports(stmt: StmtView, body: Seq<StmtView>) -> Seq<
    (Seq<char>, ExportKind),
> {
    match stmt {
        StmtView::ExportNamed { declaration: Some(decl), .. } => decl_exports(decl),
        StmtView::ExportNamed { declaration: None, source: None, names } =>
            names.map_values(|n: (Seq<char>, Seq<char>)| (n.1, kind_of(body, n.0))),
        StmtView::ExportDefault(_) => seq![("default"@, ExportKind::Default)],
        _ => Seq::empty(),
    }
}

/// The local names that a statement exports: those of an exported declaration and those of a list
/// without a source.
pub open spec fn stmt_locals(stmt: StmtView) -> Seq<Seq<char>> {
    match stmt {
        StmtView::ExportNamed { declaration: Some(decl), .. } =>
            decl_exports(decl).map_values(|e: (Seq<char>, ExportKind)| e.0),
        StmtView::ExportNamed { declaration: None, source: None, names } =>
            names.map_values(|n: (Seq<char>, Seq<char>)| n.0),
        _ => Seq::empty(),
    }
}

/// The local names that a module exports, statement by statement.
pub open spec fn module_locals(body: Seq<StmtView>) -> Seq<Seq<char>>
    decreases body.len(),
{
    if body.len() == 0 {
        Seq::empty()
    } else {
        module_locals(body.drop_last()) + stmt_locals(body.last())
    }
}

/// The re-exports of a statement.
pub open spec fn stmt_reexports(stmt: StmtView) -> Seq<(Seq<char>, Seq<char>, Seq<char>)> {
    match stmt {
        StmtView::ExportNamed { source: Some(source), names, .. } =>
            names.map_values(|n: (Seq<char>, Seq<char>)| (source, n.0, n.1)),
        StmtView::ExportAll { source, exported } => seq![
            (
                source,
                "*"@,
                match exported {
                    Some(name) => name,
                    None => "*"@,
                },
            ),
        ],
        _ => Seq::empty(),
    }
}

/// The imports of a module, statement by statement.
pub open spec fn module_imports(body: Seq<StmtView>) -> Seq<
    (Seq<char>, Seq<char>, ImportKind, bool),
>
    decreases body.len(),
{
    if body.len() == 0 {
        Seq::empty()
    } else {
        module_imports(body.drop_last()) + stmt_imports(body.last())
    }
}

/// The exports of some statements of the module `body`.
pub open spec fn exports_of(stmts: Seq<StmtView>, body: Seq<StmtView>) -> Seq<
    (Seq<char>, ExportKind),
>
    decreases stmts.len(),
{
    if stmts.len() == 0 {
        Seq::empty()
    } else {
        exports_of(stmts.drop_last(), body) + stmt_exports(stmts.last(), body)
    }
}

/// The exports of a module, statement by statement.
pub open spec fn module_exports(body: Seq<StmtView>) -> Seq<(Seq<char>, ExportKind)> {
    exports_of(body, body)
}

/// The re-exports of a module, statement by statement.
pub open spec fn module_reexports(body: Seq<StmtView>) -> Seq<(Seq<char>, Seq<char>, Seq<char>)>
    decreases body.len(),
{
    if body.len() == 0 {
        Seq::empty()
    } else {
        module_reexports(body.drop_last()) + stmt_reexports(body.last())
    }
}

/// The symbols kept: those at the top level, with whether their name is one of the local names that
/// the module exports.
pub open spec fn kept_symbols(symbols: Seq<ScopedView>, locals: Seq<Seq<char>>) -> Seq<
    (Seq<char>, bool, usize),
>
    decreases symbols.len(),
{
    if symbols.len() == 0 {
        Seq::empty()
    } else {
        let before = kept_symbols(symbols.drop_last(), locals);
        let last = symbols.last();
        if last.scope == last.root_scope {
            before.push((last.name, locals.contains(last.name), last.references))
        } else {
            before
        }
    }
}

/// What a statement of a module exports is exported by the module, and the local names that it
/// exports are among those of the module.
proof fn lemma_exports_complete(stmts: Seq<StmtView>, body: Seq<StmtView>, i: int)
    requires
        0 <= i < stmts.len(),
    ensures
        forall|j: int|
            0 <= j < stmt_exports(stmts[i], body).len() ==> exports_of(stmts, body).contains(
                #[trigger] stmt_exports(stmts[i], body)[j],
            ),
        forall|j: int|
            0 <= j < stmt_locals(stmts[i]).len() ==> module_locals(stmts).contains(
                #[trigger] stmt_locals(stmts[i])[j],
            ),
    decreases stmts.len(),
{
    let short = stmts.drop_last();
    let exports = exports_of(short, body);
    let locals = module_locals(short);
    if i < short.len() {
        lemma_exports_complete(short, body, i);
        assert(short[i] == stmts[i]);
        assert forall|j: int| 0 <= j < stmt_exports(stmts[i], body).len() implies exports_of(
            stmts,
            body,
        ).contains(#[trigger] stmt_exports(stmts[i], body)[j]) by {
            let e = stmt_exports(short[i], body)[j];
            let k = choose|k: int| 0 <= k < exports.len() && exports[k] == e;
            assert(exports_of(stmts, body)[k] == e);
        }
        assert forall|j: int| 0 <= j < stmt_locals(stmts[i]).len() implies module_locals(
            stmts,
        ).contains(#[trigger] stmt_locals(stmts[i])[j]) by {
            let e = stmt_locals(short[i])[j];
            let k = choose|k: int| 0 <= k < locals.len() && locals[k] == e;
            assert(module_locals(stmts)[k] == e);
        }
    } else {
        assert forall|j: int| 0 <= j < stmt_exports(stmts[i], body).len() implies exports_of(
            stmts,
            body,
        ).contains(#[trigger] stmt_exports(stmts[i], body)[j]) by {
            assert(exports_of(stmts, body)[exports.len() + j] == stmt_exports(stmts[i], body)[j]);
        }
        assert forall|j: int| 0 <= j < stmt_locals(stmts[i]).len() implies module_locals(
            stmts,
        ).contains(#[trigger] stmt_locals(stmts[i])[j]) by {
            assert(module_locals(stmts)[locals.len() + j] == stmt_locals(stmts[i])[j]);
        }
    }
}

/// A name of a list without a source is exported under its other name, with the kind of its
/// declaration, and a symbol of that name counts as exported.
pub proof fn law_listed_names_are_exported(
    body: Seq<StmtView>,
    i: int,
    names: Seq<(Seq<char>, Seq<char>)>,
    j: int,
)
    requires
        0 <= i < body.len(),
        body[i] == (StmtView::ExportNamed { declaration: None, source: None, names }),
        0 <= j < names.len(),
    ensures
        module_exports(body).contains((names[j].1, kind_of(body, names[j].0))),
        module_locals(body).contains(names[j].0),
{
    lemma_exports_complete(body, body, i);
    assert(stmt_exports(body[i], body)[j] == (names[j].1, kind_of(body, names[j].0)));
    assert(stmt_locals(body[i])[j] == names[j].0);
}

/// Whether an analysis says of a module and its symbols what they hold.
pub open spec fn analyzes(
    analysis: FileAnalysis,
    body: Seq<StmtView>,
    symbols: Seq<ScopedView>,
) -> bool {
    &&& types::import_views(analysis.imports@) == module_imports(body)
    &&& types::export_views(analysis.exports@) == module_exports(body)
    &&& types::reexport_views(analysis.reexports@) == module_reexports(body)
    &&& types::symbol_views(analysis.symbols@) == kept_symbols(symbols, module_locals(body))
}

/// Appends the imports of an import declaration.
fn push_imports(
    source: &String,
    type_only: bool,
    names: &Vec<ImportedName>,
    out: &mut Vec<Import>,
)
    ensures
        types::import_views(final(out)@) == types::import_views(old(out)@) + syntax::imported_views(
            names@,
        ).map_values(|n: (Seq<char>, ImportKind, bool)| (source@, n.0, n.1, type_only || n.2)),
{
    let ghost show = |n: (Seq<char>, ImportKind, bool)| (source@, n.0, n.1, type_only || n.2);
    let ghost all = syntax::imported_views(names@);
    let ghost before = types::import_views(out@);
    for i in 0..names.len()
        invariant
            show == (|n: (Seq<char>, ImportKind, bool)| (source@, n.0, n.1, type_only || n.2)),
            all == syntax::imported_views(names@),
            types::import_views(out@) == before + all.take(i as int).map_values(show),
    {
        let ghost so_far = types::import_views(out@);
        let import = Import {
            source: source.clone(),
            name: names[i].local.clone(),
            kind: names[i].kind,
            type_only: type_only || names[i].type_only,
        };
        let ghost shown = import@;
        out.push(import);
        proof {
            assert(types::import_views(out@) =~= so_far.push(shown));
            assert(all.take(i + 1).map_values(show) =~= all.take(i as int).map_values(show).push(
                show(all[i as int]),
            ));
        }
    }
    assert(all.take(all.len() as int) =~= all);
}

/// Appends an export.
fn push_export(name: String, kind: ExportKind, out: &mut Vec<Export>)
    ensures
        types::export_views(final(out)@) == types::export_views(old(out)@).push((name@, kind)),
{
    let ghost before = types::export_views(out@);
    let ghost shown = (name@, kind);
    out.push(Export { name, kind });
    assert(types::export_views(out@) =~= before.push(shown));
}

/// Appends an export, if the declaration has a name.
fn push_named_export(id: &Option<String>, kind: ExportKind, out: &mut Vec<Export>)
    ensures
        types::export_views(final(out)@) == types::export_views(old(out)@) + named_export(text::opt_view(*id), kind),
{
    let ghost before = types::export_views(out@);
    match id {
        Some(name) => {
            push_export(name.clone(), kind, out);
            assert(types::export_views(out@) =~= before + seq![(name@, kind)]);
        },
        None => {},
    }
    assert(types::export_views(out@) =~= before + named_export(text::opt_view(*id), kind));
}

/// Appends the exports of an exported declaration.
fn push_decl_exports(decl: &Decl, out: &mut Vec<Export>)
    ensures
        types::export_views(final(out)@) == types::export_views(old(out)@) + decl_exports(decl@),
{
    let ghost before = types::export_views(out@);
    match decl {
        Decl::Function { id, .. } => {
            push_named_export(id, ExportKind::Function, out);
        },
        Decl::Variable { bindings, .. } => {
            let ghost all = syntax::binding_views(bindings@);
            for i in 0..bindings.len()
                invariant
                    all == syntax::binding_views(bindings@),
                    types::export_views(out@) == before + binding_exports(all.take(i as int)),
            {
                proof {
                    assert(all.take(i + 1).drop_last() =~= all.take(i as int));
                    assert(all.take(i + 1).last() == text::opt_view(bindings@[i as int]));
                }
                match &bindings[i] {
                    Some(name) => {
                        push_export(name.clone(), ExportKind::Variable, out);
                    },
                    None => {},
                }
                assert(types::export_views(out@) =~= before + binding_exports(all.take(i + 1)));
            }
            assert(all.take(all.len() as int) =~= all);
        },
        Decl::Class { id } => {
            push_named_export(id, ExportKind::Class, out);
        },
        Decl::Interface { name } => {
            push_export(name.clone(), ExportKind::Interface, out);
        },
        Decl::TypeAlias { name, .. } => {
            push_export(name.clone(), ExportKind::TypeAlias, out);
        },
        Decl::Enum { name } => {
            push_export(name.clone(), ExportKind::Enum, out);
        },
        Decl::Other => {},
    }
    assert(types::export_views(out@) =~= before + decl_exports(decl@));
}

/// Appends the names that a statement declares, with their kinds.
fn push_declared(stmt: &Stmt, out: &mut Vec<Export>)
    ensures
        types::export_views(final(out)@) == types::export_views(old(out)@) + stmt_declares(stmt@),
{
    let ghost before = types::export_views(out@);
    match stmt {
        Stmt::Declared(decl) => push_decl_exports(decl, out),
        Stmt::ExportNamed { declaration: Some(decl), .. } => push_decl_exports(decl, out),
        Stmt::ExportDefault(DefaultDecl::Function { id, .. }) =>
            push_named_export(id, ExportKind::Function, out),
        Stmt::ExportDefault(DefaultDecl::Class { id }) =>
            push_named_export(id, ExportKind::Class, out),
        _ => {},
    }
    assert(types::export_views(out@) =~= before + stmt_declares(stmt@));
}

/// The names that a module declares, with their kinds.
fn declared_names(body: &Vec<Stmt>) -> (r: Vec<Export>)
    ensures
        types::export_views(r@) == module_declares(syntax::stmt_views(body@)),
{
    let ghost all = syntax::stmt_views(body@);
    let mut out: Vec<Export> = Vec::new();
    assert(types::export_views(out@) =~= module_declares(all.take(0)));
    for i in 0..body.len()
        invariant
            all == syntax::stmt_views(body@),
            types::export_views(out@) == module_declares(all.take(i as int)),
    {
        push_declared(&body[i], &mut out);
        proof {
            assert(all.take(i + 1).drop_last() =~= all.take(i as int));
            assert(all.take(i + 1).last() == body@[i as int]@);
        }
    }
    assert(all.take(all.len() as int) =~= all);
    out
}

/// The kind of the first declaration of a name, or `Variable` where there is none.
fn declared_kind(declared: &Vec<Export>, name: &String) -> (r: ExportKind)
    ensures
        r == kind_in(types::export_views(declared@), name@),
{
    let ghost all = types::export_views(declared@);
    assert(all.skip(0) =~= all);
    for i in 0..declared.len()
        invariant
            all == types::export_views(declared@),
            kind_in(all, name@) == kind_in(all.skip(i as int), name@),
    {
        assert(all.skip(i as int)[0] == declared@[i as int]@);
        if declared[i].name == *name {
            return declared[i].kind;
        }
        assert(all.skip(i as int).drop_first() =~= all.skip(i + 1));
    }
    ExportKind::Variable
}

/// Appends the exports of a list without a source.
fn push_listed(names: &Vec<ExportedName>, declared: &Vec<Export>, out: &mut Vec<Export>)
    ensures
        types::export_views(final(out)@) == types::export_views(old(out)@) + syntax::exported_views(
            names@,
        ).map_values(
            |n: (Seq<char>, Seq<char>)| (n.1, kind_in(types::export_views(declared@), n.0)),
        ),
{
    let ghost dv = types::export_views(declared@);
    let ghost show = |n: (Seq<char>, Seq<char>)| (n.1, kind_in(dv, n.0));
    let ghost all = syntax::exported_views(names@);
    let ghost before = types::export_views(out@);
    for i in 0..names.len()
        invariant
            dv == types::export_views(declared@),
            show == (|n: (Seq<char>, Seq<char>)| (n.1, kind_in(dv, n.0))),
            all == syntax::exported_views(names@),
            types::export_views(out@) == before + all.take(i as int).map_values(show),
    {
        let kind = declared_kind(declared, &names[i].local);
        push_export(names[i].exported.clone(), kind, out);
        proof {
            assert(all.take(i + 1).map_values(show) =~= all.take(i as int).map_values(show).push(
                show(all[i as int]),
            ));
            assert(types::export_views(out@) =~= before + all.take(i + 1).map_values(show));
        }
    }
    assert(all.take(all.len() as int) =~= all);
}

/// Appends the local names of a list of exports.
fn push_names(names: &Vec<ExportedName>, out: &mut Vec<String>)
    ensures
        text::views(final(out)@) == text::views(old(out)@) + syntax::exported_views(
            names@,
        ).map_values(|n: (Seq<char>, Seq<char>)| n.0),
{
    let ghost show = |n: (Seq<char>, Seq<char>)| n.0;
    let ghost all = syntax::exported_views(names@);
    let ghost before = text::views(out@);
    for i in 0..names.len()
        invariant
            show == (|n: (Seq<char>, Seq<char>)| n.0),
            all == syntax::exported_views(names@),
            text::views(out@) == before + all.take(i as int).map_values(show),
    {
        out.push(names[i].local.clone());
        proof {
            assert(text::views(out@) =~= (before + all.take(i as int).map_values(show)).push(
                show(all[i as int]),
            ));
            assert(all.take(i + 1).map_values(show) =~= all.take(i as int).map_values(show).push(
                show(all[i as int]),
            ));
        }
    }
    assert(all.take(all.len() as int) =~= all);
}

/// Appends the local names that a statement exports.
fn push_locals(stmt: &Stmt, out: &mut Vec<String>)
    ensures
        text::views(final(out)@) == text::views(old(out)@) + stmt_locals(stmt@),
{
    let ghost before = text::views(out@);
    match stmt {
        Stmt::ExportNamed { declaration: Some(decl), .. } => {
            let mut exports: Vec<Export> = Vec::new();
            push_decl_exports(decl, &mut exports);
            let ghost all = types::export_views(exports@);
            let ghost show = |e: (Seq<char>, ExportKind)| e.0;
            assert(all =~= decl_exports(decl@));
            for i in 0..exports.len()
                invariant
                    show == (|e: (Seq<char>, ExportKind)| e.0),
                    all == types::export_views(exports@),
                    text::views(out@) == before + all.take(i as int).map_values(show),
            {
                out.push(exports[i].name.clone());
                proof {
                    assert(text::views(out@) =~= (before + all.take(i as int).map_values(
                        show,
                    )).push(show(all[i as int])));
                    assert(all.take(i + 1).map_values(show) =~= all.take(i as int).map_values(
                        show,
                    ).push(show(all[i as int])));
                }
            }
            assert(all.take(all.len() as int) =~= all);
        },
        Stmt::ExportNamed { declaration: None, source: None, names } => push_names(names, out),
        _ => {},
    }
    assert(text::views(out@) =~= before + stmt_locals(stmt@));
}

/// The local names that a module exports.
pub fn exported_locals(body: &Vec<Stmt>) -> (r: Vec<String>)
    ensures
        text::views(r@) == module_locals(syntax::stmt_views(body@)),
{
    let ghost all = syntax::stmt_views(body@);
    let mut out: Vec<String> = Vec::new();
    assert(text::views(out@) =~= module_locals(all.take(0)));
    for i in 0..body.len()
        invariant
            all == syntax::stmt_views(body@),
            text::views(out@) == module_locals(all.take(i as int)),
    {
        push_locals(&body[i], &mut out);
        proof {
            assert(all.take(i + 1).drop_last() =~= all.take(i as int));
            assert(all.take(i + 1).last() == body@[i as int]@);
        }
    }
    assert(all.take(all.len() as int) =~= all);
    out
}

/// Appends the re-exports of an export clause with a source.
fn push_reexports(source: &String, names: &Vec<ExportedName>, out: &mut Vec<ReExport>)
    ensures
        types::reexport_views(final(out)@) == types::reexport_views(old(out)@)
            + syntax::exported_views(names@).map_values(
            |n: (Seq<char>, Seq<char>)| (source@, n.0, n.1),
        ),
{
    let ghost show = |n: (Seq<char>, Seq<char>)| (source@, n.0, n.1);
    let ghost all = syntax::exported_views(names@);
    let ghost before = types::reexport_views(out@);
    for i in 0..names.len()
        invariant
            show == (|n: (Seq<char>, Seq<char>)| (source@, n.0, n.1)),
            all == syntax::exported_views(names@),
            types::reexport_views(out@) == before + all.take(i as int).map_values(show),
    {
        let ghost so_far = types::reexport_views(out@);
        let reexport = ReExport {
            source: source.clone(),
            local: names[i].local.clone(),
            exported: names[i].exported.clone(),
        };
        let ghost shown = reexport@;
        out.push(reexport);
        proof {
            assert(types::reexport_views(out@) =~= so_far.push(shown));
            assert(all.take(i + 1).map_values(show) =~= all.take(i as int).map_values(show).push(
                show(all[i as int]),
            ));
        }
    }
    assert(all.take(all.len() as int) =~= all);
}

/// Appends what one statement imports, exports and re-exports, given the names that its module
/// declares.
fn push_statement(
    stmt: &Stmt,
    declared: &Vec<Export>,
    body: Ghost<Seq<StmtView>>,
    out: &mut FileAnalysis,
)
    requires
        types::export_views(declared@) == module_declares(body@),
    ensures
        types::import_views(final(out).imports@) == types::import_views(old(out).imports@)
            + stmt_imports(stmt@),
        types::export_views(final(out).exports@) == types::export_views(old(out).exports@)
            + stmt_exports(stmt@, body@),
        types::reexport_views(final(out).reexports@) == types::reexport_views(old(out).reexports@)
            + stmt_reexports(stmt@),
        final(out).symbols == old(out).symbols,
{
    let ghost imports = types::import_views(out.imports@);
    let ghost exports = types::export_views(out.exports@);
    let ghost reexports = types::reexport_views(out.reexports@);
    match stmt {
        Stmt::Import { source, type_only, names } => {
            match names {
                Some(names) => {
                    push_imports(source, *type_only, names, &mut out.imports);
                },
                None => {},
            }
        },
        Stmt::ExportNamed { declaration, source, names } => {
            match declaration {
                Some(decl) => {
                    push_decl_exports(decl, &mut out.exports);
                },
                None => {},
            }
            match source {
                Some(source) => {
                    push_reexports(source, names, &mut out.reexports);
                },
                None => {
                    if declaration.is_none() {
                        push_listed(names, declared, &mut out.exports);
                        assert(syntax::exported_views(names@).map_values(
                            |n: (Seq<char>, Seq<char>)|
                                (n.1, kind_in(types::export_views(declared@), n.0)),
                        ) =~= stmt_exports(stmt@, body@));
                    }
                },
            }
        },
        Stmt::ExportDefault(_) => {
            push_export("default".to_string(), ExportKind::Default, &mut out.exports);
        },
        Stmt::ExportAll { source, exported } => {
            let reexport = ReExport {
                source: source.clone(),
                local: "*".to_string(),
                exported: match exported {
                    Some(name) => name.clone(),
                    None => "*".to_string(),
                },
            };
            let ghost shown = reexport@;
            out.reexports.push(reexport);
            assert(types::reexport_views(out.reexports@) =~= reexports.push(shown));
        },
        Stmt::Declared(_) => {},
        Stmt::Other => {},
    }
    proof {
        assert(types::import_views(out.imports@) =~= imports + stmt_imports(stmt@));
        assert(types::export_views(out.exports@) =~= exports + stmt_exports(stmt@, body@));
        assert(types::reexport_views(out.reexports@) =~= reexports + stmt_reexports(stmt@));
    }
}

/// Appends the imports, exports and re-exports of a module.
pub fn extract_imports_exports(body: &Vec<Stmt>, out: &mut FileAnalysis)
    ensures
        types::import_views(final(out).imports@) == types::import_views(old(out).imports@)
            + module_imports(syntax::stmt_views(body@)),
        types::export_views(final(out).exports@) == types::export_views(old(out).exports@)
            + module_exports(syntax::stmt_views(body@)),
        types::reexport_views(final(out).reexports@) == types::reexport_views(old(out).reexports@)
            + module_reexports(syntax::stmt_views(body@)),
        final(out).symbols == old(out).symbols,
{
    let ghost start = *out;
    let ghost all = syntax::stmt_views(body@);
    let declared = declared_names(body);
    for i in 0..body.len()
        invariant
            all == syntax::stmt_views(body@),
            types::export_views(declared@) == module_declares(all),
            types::import_views(out.imports@) == types::import_views(start.imports@)
                + module_imports(all.take(i as int)),
            types::export_views(out.exports@) == types::export_views(start.exports@)
                + exports_of(all.take(i as int), all),
            types::reexport_views(out.reexports@) == types::reexport_views(start.reexports@)
                + module_reexports(all.take(i as int)),
            out.symbols == start.symbols,
    {
        push_statement(&body[i], &declared, Ghost(all), out);
        proof {
            assert(all.take(i + 1).drop_last() =~= all.take(i as int));
            assert(all.take(i + 1).last() == body@[i as int]@);
        }
    }
    assert(all.take(all.len() as int) =~= all);
}

/// Appends the symbols that stand at the top level of a module, given the local names that it
/// exports.
pub fn extract_symbols(
    symbols: &Vec<ScopedSymbol>,
    locals: &Vec<String>,
    out: &mut FileAnalysis,
)
    ensures
        types::symbol_views(final(out).symbols@) == types::symbol_views(old(out).symbols@)
            + kept_symbols(syntax::scoped_views(symbols@), text::views(locals@)),
        final(out).imports == old(out).imports,
        final(out).exports == old(out).exports,
        final(out).reexports == old(out).reexports,
{
    let ghost start = *out;
    let ghost names = text::views(locals@);
    let ghost all = syntax::scoped_views(symbols@);
    for i in 0..symbols.len()
        invariant
            all == syntax::scoped_views(symbols@),
            names == text::views(locals@),
            types::symbol_views(out.symbols@) == types::symbol_views(start.symbols@)
                + kept_symbols(all.take(i as int), names),
            out.imports == start.imports,
            out.exports == start.exports,
            out.reexports == start.reexports,
    {
        proof {
            assert(all.take(i + 1).drop_last() =~= all.take(i as int));
            assert(all.take(i + 1).last() == symbols@[i as int]@);
        }
        let ghost before = types::symbol_views(out.symbols@);
        if symbols[i].scope == symbols[i].root_scope {
            let is_exported = text::holds(locals, symbols[i].name.as_str());
            let symbol = SymbolInfo {
                name: symbols[i].name.clone(),
                is_exported,
                reference_count: symbols[i].references,
            };
            let ghost shown = symbol@;
            out.symbols.push(symbol);
            assert(types::symbol_views(out.symbols@) =~= before.push(shown));
        }
        assert(types::symbol_views(out.symbols@) =~= types::symbol_views(start.symbols@)
            + kept_symbols(all.take(i + 1), names));
    }
    assert(all.take(all.len() as int) =~= all);
}

/// The analysis of a parsed module and its symbols.
pub fn analyze_module(body: &Vec<Stmt>, symbols: &Vec<ScopedSymbol>) -> (r: FileAnalysis)
    ensures
        analyzes(r, syntax::stmt_views(body@), syntax::scoped_views(symbols@)),
{
    let mut analysis = FileAnalysis::default();
    extract_imports_exports(body, &mut analysis);
    proof {
        assert(types::import_views(analysis.imports@) =~= module_imports(syntax::stmt_views(body@)));
        assert(types::export_views(analysis.exports@) =~= module_exports(syntax::stmt_views(body@)));
        assert(types::reexport_views(analysis.reexports@) =~= module_reexports(syntax::stmt_views(body@)));
    }
    let locals = exported_locals(body);
    extract_symbols(symbols, &locals, &mut analysis);
    assert(types::symbol_views(analysis.symbols@) =~= kept_symbols(
        syntax::scoped_views(symbols@),
        module_locals(syntax::stmt_views(body@)),
    ));
    analysis
}

/// Parses a source file and says what it imports, exports and declares.
pub fn analyze_file(path: &str, source: &str) -> (r: Result<FileAnalysis, AnalyzeError>)
    ensures
        match syntax::module_syntax(path@, source@) {
            None => r matches Err(AnalyzeError::UnsupportedFileType { path: p }) && p@ == path@,
            Some(module) => if module.panicked {
                r matches Err(AnalyzeError::ParserPanicked { path: p }) && p@ == path@
            } else {
                r matches Ok(analysis) && analyzes(
                    analysis,
                    module.body,
                    syntax::module_symbols(path@, source@),
                ) && analysis.parse_errors == module.errors
            },
        },
{
    match syntax::parse_module(path, source) {
        None => Err(AnalyzeError::UnsupportedFileType { path: path.to_string() }),
        Some(module) => {
            if module.panicked {
                return Err(AnalyzeError::ParserPanicked { path: path.to_string() });
            }
            match syntax::resolve_symbols(path, source) {
                None => Err(AnalyzeError::UnsupportedFileType { path: path.to_string() }),
                Some(symbols) => {
                    let mut analysis = analyze_module(&module.body, &symbols);
                    analysis.parse_errors = module.errors;
                    Ok(analysis)
                },
            }
        },
    }
}

// ---------------------------------------------------------------------------------------------
// Signatures
// ---------------------------------------------------------------------------------------------

/// The longest beginning of `s` that takes at most `max` bytes.
pub open spec fn truncated(s: Seq<char>, max: nat) -> Seq<char>
    decreases s.len(),
{
    if s.len() == 0 || text::byte_len(s) <= max {
        s
    } else {
        truncated(s.drop_last(), max)
    }
}

/// The bytes that lines take, each with its line feed.
pub open spec fn bytes_of_lines(lines: Seq<Seq<char>>) -> nat
    decreases lines.len(),
{
    if lines.len() == 0 {
        0
    } else {
        bytes_of_lines(lines.drop_last()) + text::byte_len(lines.last()) + 1
    }
}

/// The index of the last line that begins at or before a byte offset.
pub open spec fn line_at(lines: Seq<Seq<char>>, offset: nat) -> nat
    decreases lines.len(),
{
    if lines.len() <= 1 {
        0
    } else if offset < bytes_of_lines(lines.drop_last()) {
        line_at(lines.drop_last(), offset)
    } else {
        (lines.len() - 1) as nat
    }
}

/// The lines of a source: what stands between its line feeds.
pub open spec fn source_lines(source: Seq<char>) -> Seq<Seq<char>> {
    text::split_by(source, CharClass::Is('\n'))
}

/// The number of line feeds among some bytes.
pub open spec fn line_feeds(bytes: Seq<u8>) -> nat
    decreases bytes.len(),
{
    if bytes.len() == 0 {
        0
    } else {
        line_feeds(bytes.drop_last()) + (if bytes.last() == 10 {
            1nat
        } else {
            0nat
        })
    }
}

/// The smaller of two numbers.
pub open spec fn least(a: nat, b: nat) -> nat {
    if a <= b {
        a
    } else {
        b
    }
}

/// `"export "` before an exported declaration.
pub open spec fn export_prefix(exported: bool) -> Seq<char> {
    if exported {
        "export "@
    } else {
        ""@
    }
}

/// Whether a line holds the head of the function `name`.
pub open spec fn heads_function(line: Seq<char>, name: Seq<char>) -> bool {
    text::contains(line, "function "@ + name) || text::contains(line, "function* "@ + name)
}

/// How long a signature is at most.
pub const LONGEST_SIGNATURE: usize = 100;

/// A signature, cut to its longest length.
pub open spec fn cut(signature: Seq<char>) -> Seq<char> {
    truncated(signature, LONGEST_SIGNATURE as nat)
}

/// A line with `"export "` before it where it is of an exported declaration and does not say so,
/// cut to the longest length.
pub open spec fn marked(line: Seq<char>, exported: bool) -> Seq<char> {
    if exported && !("export"@).is_prefix_of(line) {
        cut("export "@ + line)
    } else {
        cut(line)
    }
}

/// The signature in a line that heads a function: what stands before its body.
pub open spec fn head_signature(line: Seq<char>, exported: bool) -> Seq<char> {
    marked(text::trim_by(text::until(line, '{'), CharClass::Space), exported)
}

/// The signature in the first of the lines that heads the function `name`, if one does.
pub open spec fn first_head(lines: Seq<Seq<char>>, name: Seq<char>, exported: bool) -> Option<
    Seq<char>,
>
    decreases lines.len(),
{
    if lines.len() == 0 {
        None
    } else {
        let line = text::trim_by(lines[0], CharClass::Space);
        if heads_function(line, name) {
            Some(head_signature(line, exported))
        } else {
            first_head(lines.drop_first(), name, exported)
        }
    }
}

/// The lines among which the head of a declaration is looked for: from one line before the line
/// of its offset to two lines after.
pub open spec fn head_window(lines: Seq<Seq<char>>, offset: nat) -> Seq<Seq<char>> {
    let line = line_at(lines, offset);
    let from = if line > 0 {
        line - 1
    } else {
        0
    };
    lines.subrange(from, least(line + 3, lines.len()) as int)
}

/// The signature of the function `name` that begins at a byte offset.
pub open spec fn function_signature(
    lines: Seq<Seq<char>>,
    offset: nat,
    name: Seq<char>,
    exported: bool,
) -> Seq<char> {
    match first_head(head_window(lines, offset), name, exported) {
        Some(signature) => signature,
        None => cut(export_prefix(exported) + "function "@ + name + "(...)"@),
    }
}

/// One signature for each variable that some bindings name.
pub open spec fn binding_signatures(
    prefix: Seq<char>,
    keyword: Seq<char>,
    bindings: Seq<Option<Seq<char>>>,
) -> Seq<Seq<char>>
    decreases bindings.len(),
{
    if bindings.len() == 0 {
        Seq::empty()
    } else {
        let before = binding_signatures(prefix, keyword, bindings.drop_last());
        match bindings.last() {
            Some(name) => before.push(cut(prefix + keyword + " "@ + name)),
            None => before,
        }
    }
}

/// The index of the line of a byte offset: the number of line feeds before it.
pub open spec fn line_number(bytes: Seq<u8>, offset: nat) -> nat {
    line_feeds(bytes.take(least(offset, bytes.len()) as int))
}

/// The signature of a type alias: its line, or its name where no line has its number.
pub open spec fn alias_signature(
    name: Seq<char>,
    start: nat,
    lines: Seq<Seq<char>>,
    bytes: Seq<u8>,
    exported: bool,
) -> Seq<char> {
    let line = line_number(bytes, start);
    if line < lines.len() {
        marked(text::trim_by(lines[line as int], CharClass::Space), exported)
    } else {
        cut(export_prefix(exported) + "type "@ + name)
    }
}

/// The signatures of a declaration.
pub open spec fn decl_signatures(
    decl: DeclView,
    lines: Seq<Seq<char>>,
    bytes: Seq<u8>,
    exported: bool,
) -> Seq<Seq<char>> {
    let prefix = export_prefix(exported);
    match decl {
        DeclView::Function { id: Some(name), start } => seq![
            function_signature(lines, start as nat, name, exported),
        ],
        DeclView::Variable { keyword, bindings } => binding_signatures(prefix, keyword, bindings),
        DeclView::Class { id: Some(name) } => seq![cut(prefix + "class "@ + name)],
        DeclView::Interface { name } => seq![cut(prefix + "interface "@ + name)],
        DeclView::TypeAlias { name, start } => seq![
            alias_signature(name, start as nat, lines, bytes, exported),
        ],
        DeclView::Enum { name } => seq![cut(prefix + "enum "@ + name)],
        _ => Seq::empty(),
    }
}

/// The name of a default export.
pub open spec fn default_name(id: Option<Seq<char>>) -> Seq<char> {
    match id {
        Some(name) => name,
        None => "default"@,
    }
}

/// The signature of a default export.
pub open spec fn default_signature(decl: DefaultView, lines: Seq<Seq<char>>) -> Seq<char> {
    match decl {
        DefaultView::Function { id, start } =>
            function_signature(lines, start as nat, default_name(id), true),
        DefaultView::Class { id } => cut("export default class "@ + default_name(id)),
        DefaultView::Other => cut("export default ..."@),
    }
}

/// The signatures of a statement.
pub open spec fn stmt_signatures(stmt: StmtView, lines: Seq<Seq<char>>, bytes: Seq<u8>) -> Seq<
    Seq<char>,
> {
    match stmt {
        StmtView::ExportNamed { declaration: Some(decl), .. } =>
            decl_signatures(decl, lines, bytes, true),
        StmtView::ExportDefault(decl) => seq![default_signature(decl, lines)],
        StmtView::ExportAll { source, exported } => {
            let name = match exported {
                Some(name) => " as "@ + name,
                None => ""@,
            };
            seq![cut("export *"@ + name + " from \""@ + source + "\""@)]
        },
        StmtView::Declared(decl) => decl_signatures(decl, lines, bytes, false),
        _ => Seq::empty(),
    }
}

/// The signatures of a module, statement by statement.
pub open spec fn module_signatures(
    body: Seq<StmtView>,
    lines: Seq<Seq<char>>,
    bytes: Seq<u8>,
) -> Seq<Seq<char>>
    decreases body.len(),
{
    if body.len() == 0 {
        Seq::empty()
    } else {
        module_signatures(body.drop_last(), lines, bytes) + stmt_signatures(
            body.last(),
            lines,
            bytes,
        )
    }
}

/// The bytes of a text with one more character.
proof fn lemma_utf8_push(s: Seq<char>, c: char)
    ensures
        vstd::utf8::encode_utf8(s.push(c)) == vstd::utf8::encode_utf8(s)
            + vstd::utf8::encode_scalar(c as u32),
    decreases s.len(),
{
    reveal_with_fuel(vstd::utf8::encode_utf8, 2);
    if s.len() == 0 {
        assert(s.push(c).drop_first() =~= Seq::<char>::empty());
        assert(vstd::utf8::encode_utf8(s.push(c)) =~= vstd::utf8::encode_scalar(c as u32));
        assert(vstd::utf8::encode_utf8(s) =~= Seq::<u8>::empty());
    } else {
        lemma_utf8_push(s.drop_first(), c);
        assert(s.push(c).drop_first() =~= s.drop_first().push(c));
        assert(vstd::utf8::encode_utf8(s.push(c)) =~= vstd::utf8::encode_utf8(s)
            + vstd::utf8::encode_scalar(c as u32));
    }
}

/// A longer beginning takes at least as many bytes.
proof fn lemma_byte_len_grows(s: Seq<char>, k: int)
    requires
        0 <= k <= s.len(),
    ensures
        text::byte_len(s.take(k)) <= text::byte_len(s),
    decreases s.len(),
{
    if k == s.len() {
        assert(s.take(k) =~= s);
    } else {
        lemma_byte_len_grows(s.drop_last(), k);
        assert(s.drop_last().take(k) =~= s.take(k));
        assert(s =~= s.drop_last().push(s.last()));
        lemma_utf8_push(s.drop_last(), s.last());
    }
}

/// The beginning that fits and cannot be made longer is the truncated text.
proof fn lemma_truncated(s: Seq<char>, max: nat, k: int)
    requires
        0 <= k <= s.len(),
        text::byte_len(s.take(k)) <= max,
        k < s.len() ==> text::byte_len(s.take(k + 1)) > max,
    ensures
        truncated(s, max) == s.take(k),
    decreases s.len(),
{
    if k == s.len() {
        assert(s.take(k) =~= s);
    } else {
        lemma_byte_len_grows(s, k + 1);
        let t = s.drop_last();
        assert(t.take(k) =~= s.take(k));
        if k < t.len() {
            assert(t.take(k + 1) =~= s.take(k + 1));
        }
        lemma_truncated(t, max, k);
    }
}

/// A truncated text is a beginning of the text and takes at most `max` bytes; a text that takes
/// no more is left as it is.
pub proof fn law_truncated(s: Seq<char>, max: nat)
    ensures
        truncated(s, max).is_prefix_of(s),
        text::byte_len(truncated(s, max)) <= max,
        text::byte_len(s) <= max ==> truncated(s, max) == s,
    decreases s.len(),
{
    if s.len() > 0 && text::byte_len(s) > max {
        law_truncated(s.drop_last(), max);
        let t = truncated(s.drop_last(), max);
        assert(t =~= s.drop_last().take(t.len() as int));
        assert(s.drop_last().take(t.len() as int) =~= s.take(t.len() as int));
    } else if s.len() == 0 {
        assert(vstd::utf8::encode_utf8(s) =~= Seq::<u8>::empty());
    }
}

/// A text has no more characters than bytes.
proof fn lemma_chars_in_bytes(s: Seq<char>)
    ensures
        s.len() <= text::byte_len(s),
    decreases s.len(),
{
    if s.len() > 0 {
        lemma_chars_in_bytes(s.drop_last());
        assert(s =~= s.drop_last().push(s.last()));
        lemma_utf8_push(s.drop_last(), s.last());
    }
}

/// What is cut is short.
proof fn lemma_cut(signature: Seq<char>)
    ensures
        cut(signature).len() <= LONGEST_SIGNATURE,
{
    law_truncated(signature, LONGEST_SIGNATURE as nat);
    lemma_chars_in_bytes(cut(signature));
}

/// The signature in a head is short.
proof fn lemma_first_head(lines: Seq<Seq<char>>, name: Seq<char>, exported: bool)
    ensures
        first_head(lines, name, exported) matches Some(signature) ==> signature.len()
            <= LONGEST_SIGNATURE,
    decreases lines.len(),
{
    if lines.len() > 0 {
        let head = text::trim_by(
            text::until(text::trim_by(lines[0], CharClass::Space), '{'),
            CharClass::Space,
        );
        lemma_cut(head);
        lemma_cut("export "@ + head);
        lemma_first_head(lines.drop_first(), name, exported);
    }
}

/// The signature of a function is short.
proof fn lemma_function_signature(
    lines: Seq<Seq<char>>,
    offset: nat,
    name: Seq<char>,
    exported: bool,
)
    ensures
        function_signature(lines, offset, name, exported).len() <= LONGEST_SIGNATURE,
{
    lemma_first_head(head_window(lines, offset), name, exported);
    lemma_cut(export_prefix(exported) + "function "@ + name + "(...)"@);
}

/// The signatures of variables are short.
proof fn lemma_binding_signatures(
    prefix: Seq<char>,
    keyword: Seq<char>,
    bindings: Seq<Option<Seq<char>>>,
)
    ensures
        all_short(binding_signatures(prefix, keyword, bindings)),
    decreases bindings.len(),
{
    if bindings.len() > 0 {
        lemma_binding_signatures(prefix, keyword, bindings.drop_last());
        match bindings.last() {
            Some(name) => {
                lemma_cut(prefix + keyword + " "@ + name);
            },
            None => {},
        }
    }
}

/// The signatures of a declaration are short.
proof fn lemma_decl_signatures(
    decl: DeclView,
    lines: Seq<Seq<char>>,
    bytes: Seq<u8>,
    exported: bool,
)
    ensures
        all_short(decl_signatures(decl, lines, bytes, exported)),
{
    let prefix = export_prefix(exported);
    match decl {
        DeclView::Function { id: Some(name), start } => {
            lemma_function_signature(lines, start as nat, name, exported);
        },
        DeclView::Variable { keyword, bindings } => {
            lemma_binding_signatures(prefix, keyword, bindings);
        },
        DeclView::Class { id: Some(name) } => {
            lemma_cut(prefix + "class "@ + name);
        },
        DeclView::Interface { name } => {
            lemma_cut(prefix + "interface "@ + name);
        },
        DeclView::TypeAlias { name, start } => {
            let line = text::trim_by(
                lines[line_number(bytes, start as nat) as int],
                CharClass::Space,
            );
            lemma_cut(line);
            lemma_cut("export "@ + line);
            lemma_cut(prefix + "type "@ + name);
        },
        DeclView::Enum { name } => {
            lemma_cut(prefix + "enum "@ + name);
        },
        _ => {},
    }
}

/// Whether signatures are short.
pub open spec fn all_short(signatures: Seq<Seq<char>>) -> bool {
    forall|k: int|
        0 <= k < signatures.len() ==> (#[trigger] signatures[k]).len() <= LONGEST_SIGNATURE
}

/// The signatures of a statement are short.
proof fn lemma_stmt_signatures(stmt: StmtView, lines: Seq<Seq<char>>, bytes: Seq<u8>)
    ensures
        all_short(stmt_signatures(stmt, lines, bytes)),
{
    match stmt {
        StmtView::ExportNamed { declaration: Some(decl), .. } => {
            lemma_decl_signatures(decl, lines, bytes, true);
        },
        StmtView::ExportDefault(decl) => {
            match decl {
                DefaultView::Function { id, start } => {
                    lemma_function_signature(lines, start as nat, default_name(id), true);
                },
                DefaultView::Class { id } => {
                    lemma_cut("export default class "@ + default_name(id));
                },
                DefaultView::Other => {
                    lemma_cut("export default ..."@);
                },
            }
        },
        StmtView::ExportAll { source, exported } => {
            let name = match exported {
                Some(name) => " as "@ + name,
                None => ""@,
            };
            lemma_cut("export *"@ + name + " from \""@ + source + "\""@);
        },
        StmtView::Declared(decl) => {
            lemma_decl_signatures(decl, lines, bytes, false);
        },
        _ => {},
    }
}

/// No signature has more than 100 characters.
pub proof fn law_signatures_short(body: Seq<StmtView>, lines: Seq<Seq<char>>, bytes: Seq<u8>)
    ensures
        all_short(module_signatures(body, lines, bytes)),
    decreases body.len(),
{
    if body.len() > 0 {
        law_signatures_short(body.drop_last(), lines, bytes);
        lemma_stmt_signatures(body.last(), lines, bytes);
    }
}

/// The number of bytes of a character in UTF-8.
fn char_width(c: char) -> (r: usize)
    ensures
        r == vstd::utf8::encode_scalar(c as u32).len(),
        1 <= r <= 4,
{
    let v: u32 = c as u32;
    if v <= 0x7f {
        1
    } else if v <= 0x7ff {
        2
    } else if v <= 0xffff {
        3
    } else {
        4
    }
}

/// The longest beginning of `s` that takes at most `max` bytes.
pub fn truncate(s: &str, max: usize) -> (r: &str)
    ensures
        r@ == truncated(s@, max as nat),
{
    if text::bytes_in(s) <= max {
        return s;
    }
    let chars = text::chars_of(s);
    let mut k: usize = 0;
    let mut bytes: usize = 0;
    assert(vstd::utf8::encode_utf8(chars@.take(0)) =~= Seq::<u8>::empty());
    while k < chars.len() && char_width(chars[k]) <= max - bytes
        invariant
            k <= chars@.len(),
            bytes == text::byte_len(chars@.take(k as int)),
            bytes <= max,
        decreases chars@.len() - k,
    {
        proof {
            assert(chars@.take(k + 1) =~= chars@.take(k as int).push(chars@[k as int]));
            lemma_utf8_push(chars@.take(k as int), chars@[k as int]);
        }
        bytes += char_width(chars[k]);
        k += 1;
    }
    proof {
        if k < chars@.len() {
            assert(chars@.take(k + 1) =~= chars@.take(k as int).push(chars@[k as int]));
            lemma_utf8_push(chars@.take(k as int), chars@[k as int]);
        }
        lemma_truncated(s@, max as nat, k as int);
    }
    s.substring_char(0, k)
}

/// More lines take at least as many bytes.
proof fn lemma_line_bytes_grow(lines: Seq<Seq<char>>, k: int)
    requires
        0 <= k <= lines.len(),
    ensures
        bytes_of_lines(lines.take(k)) <= bytes_of_lines(lines),
    decreases lines.len(),
{
    if k == lines.len() {
        assert(lines.take(k) =~= lines);
    } else {
        lemma_line_bytes_grow(lines.drop_last(), k);
        assert(lines.drop_last().take(k) =~= lines.take(k));
    }
}

/// The line that begins at or before an offset and whose successor begins after it.
proof fn lemma_line_at(lines: Seq<Seq<char>>, offset: nat, i: int)
    requires
        0 <= i < lines.len(),
        bytes_of_lines(lines.take(i)) <= offset,
        i + 1 < lines.len() ==> offset < bytes_of_lines(lines.take(i + 1)),
    ensures
        line_at(lines, offset) == i,
    decreases lines.len(),
{
    if lines.len() > 1 {
        if i == lines.len() - 1 {
            assert(lines.take(i) =~= lines.drop_last());
        } else {
            let t = lines.drop_last();
            assert(t.take(i + 1) =~= lines.take(i + 1));
            assert(t.take(i) =~= lines.take(i));
            lemma_line_bytes_grow(t, i + 1);
            lemma_line_at(t, offset, i);
        }
    }
}

/// Only the line feed has a byte of that value in UTF-8.
proof fn lemma_line_feed_byte(c: char, n: int)
    requires
        0 <= n <= vstd::utf8::encode_scalar(c as u32).len(),
    ensures
        c != '\n' ==> line_feeds(vstd::utf8::encode_scalar(c as u32).take(n)) == 0,
        c == '\n' ==> vstd::utf8::encode_scalar(c as u32) == seq![10u8],
    decreases n,
{
    let v = c as u32;
    let bytes = vstd::utf8::encode_scalar(v);
    assert(v <= 0x7f ==> (v & 0x7f) as u8 == v) by (bit_vector);
    assert(0xC0u8 | ((v >> 6) & 0x1F) as u8 != 10) by (bit_vector);
    assert(0xE0u8 | ((v >> 12) & 0x0F) as u8 != 10) by (bit_vector);
    assert(0xF0u8 | ((v >> 18) & 0x7) as u8 != 10) by (bit_vector);
    assert(0x80u8 | (v & 0x3F) as u8 != 10) by (bit_vector);
    assert(0x80u8 | ((v >> 6) & 0x3F) as u8 != 10) by (bit_vector);
    assert(0x80u8 | ((v >> 12) & 0x3F) as u8 != 10) by (bit_vector);
    if c == '\n' {
        assert(bytes =~= seq![10u8]);
    } else if n > 0 {
        lemma_line_feed_byte(c, n - 1);
        assert(bytes.take(n).drop_last() =~= bytes.take(n - 1));
        assert(bytes[n - 1] != 10);
    }
}

/// Line feeds of two parts add up.
proof fn lemma_line_feeds_add(a: Seq<u8>, b: Seq<u8>)
    ensures
        line_feeds(a + b) == line_feeds(a) + line_feeds(b),
    decreases b.len(),
{
    if b.len() == 0 {
        assert(a + b =~= a);
    } else {
        lemma_line_feeds_add(a, b.drop_last());
        assert((a + b).drop_last() =~= a + b.drop_last());
    }
}

/// The lines of a source take all of its bytes and one more, for the line feed that the last of
/// them lacks.
proof fn lemma_source_lines_bytes(source: Seq<char>)
    ensures
        bytes_of_lines(source_lines(source)) == text::byte_len(source) + 1,
    decreases source.len(),
{
    let lines = source_lines(source);
    if source.len() == 0 {
        assert(lines.drop_last() =~= Seq::<Seq<char>>::empty());
        assert(lines.last() =~= Seq::<char>::empty());
        assert(vstd::utf8::encode_utf8(source) =~= Seq::<u8>::empty());
        assert(vstd::utf8::encode_utf8(lines.last()) =~= Seq::<u8>::empty());
        assert(bytes_of_lines(lines.drop_last()) == 0);
    } else {
        let before = source_lines(source.drop_last());
        text::lemma_split_not_empty(source.drop_last(), CharClass::Is('\n'));
        lemma_source_lines_bytes(source.drop_last());
        assert(source =~= source.drop_last().push(source.last()));
        lemma_utf8_push(source.drop_last(), source.last());
        if source.last() == '\n' {
            lemma_line_feed_byte('\n', 0);
            assert(lines.drop_last() =~= before);
            assert(lines.last() =~= Seq::<char>::empty());
            assert(vstd::utf8::encode_utf8(lines.last()) =~= Seq::<u8>::empty());
        } else {
            assert(lines.drop_last() =~= before.drop_last());
            assert(lines.last() =~= before.last().push(source.last()));
            lemma_utf8_push(before.last(), source.last());
        }
    }
}

/// The line of a byte offset, counted over the lines of a source, is the number of line feeds
/// before the offset, whatever the lines end in.
pub proof fn law_line_of_offset(source: Seq<char>, offset: nat)
    ensures
        line_at(source_lines(source), offset) == line_number(
            vstd::utf8::encode_utf8(source),
            offset,
        ),
    decreases source.len(),
{
    let lines = source_lines(source);
    let bytes = vstd::utf8::encode_utf8(source);
    if source.len() == 0 {
        assert(bytes =~= Seq::<u8>::empty());
        assert(bytes.take(0) =~= Seq::<u8>::empty());
    } else {
        let rest = source.drop_last();
        let c = source.last();
        let before = source_lines(rest);
        let head = vstd::utf8::encode_utf8(rest);
        let tail = vstd::utf8::encode_scalar(c as u32);
        text::lemma_split_not_empty(rest, CharClass::Is('\n'));
        lemma_source_lines_bytes(rest);
        assert(source =~= rest.push(c));
        lemma_utf8_push(rest, c);
        let end = least(offset, bytes.len());
        if offset <= head.len() {
            law_line_of_offset(rest, offset);
            assert(bytes.take(end as int) =~= head.take(end as int));
            if c == '\n' {
                assert(lines.drop_last() =~= before);
            } else {
                assert(lines.drop_last() =~= before.drop_last());
            }
        } else {
            law_line_of_offset(rest, head.len());
            assert(head.take(head.len() as int) =~= head);
            let n = end - head.len();
            assert(bytes.take(end as int) =~= head + tail.take(n));
            lemma_line_feeds_add(head, tail.take(n));
            lemma_line_feed_byte(c, n);
            if before.len() > 1 {
                assert(bytes_of_lines(before.drop_last()) <= head.len());
            }
            if c == '\n' {
                assert(lines.drop_last() =~= before);
                assert(tail.take(1) =~= tail);
                reveal_with_fuel(line_feeds, 2);
                assert(tail.drop_last() =~= Seq::<u8>::empty());
            } else {
                assert(lines.drop_last() =~= before.drop_last());
            }
        }
    }
}

/// The index of the line in which a byte offset lies, for lines that each end in one line feed;
/// an offset after the last line lies in it.
pub fn byte_offset_to_line_from_lines(lines: &Vec<String>, byte_offset: usize) -> (r: usize)
    ensures
        r == line_at(text::views(lines@), byte_offset as nat),
        lines@.len() > 0 ==> r < lines@.len(),
{
    let ghost all = text::views(lines@);
    let mut bytes_seen: usize = 0;
    assert(all.take(0) =~= Seq::<Seq<char>>::empty());
    for i in 0..lines.len()
        invariant
            all == text::views(lines@),
            bytes_seen == bytes_of_lines(all.take(i as int)),
            bytes_seen <= byte_offset,
    {
        let len: usize = text::bytes_in(lines[i].as_str());
        proof {
            assert(all.take(i + 1).drop_last() =~= all.take(i as int));
            assert(all.take(i + 1).last() == lines@[i as int]@);
        }
        if len >= byte_offset - bytes_seen {
            proof {
                lemma_line_at(all, byte_offset as nat, i as int);
            }
            return i;
        }
        bytes_seen += len + 1;
    }
    if lines.len() == 0 {
        0
    } else {
        proof {
            assert(all.take(all.len() as int) =~= all);
            lemma_line_bytes_grow(all, all.len() - 1);
            lemma_line_at(all, byte_offset as nat, all.len() - 1);
        }
        lines.len() - 1
    }
}

/// The index of the line in which a byte offset of a source lies.
pub fn byte_offset_to_line(source: &str, offset: usize) -> (r: usize)
    ensures
        r == line_number(vstd::utf8::encode_utf8(source@), offset as nat),
{
    let bytes = source.as_bytes();
    let end: usize = if offset < bytes.len() {
        offset
    } else {
        bytes.len()
    };
    let mut n: usize = 0;
    for i in 0..end
        invariant
            end <= bytes@.len(),
            n == line_feeds(bytes@.take(i as int)),
            n <= i,
    {
        proof {
            assert(bytes@.take(i + 1).drop_last() =~= bytes@.take(i as int));
            assert(bytes@.take(i + 1).last() == bytes@[i as int]);
        }
        if bytes[i] == 10 {
            n += 1;
        }
    }
    n
}

/// Appends one text to a list.
fn push_text(out: &mut Vec<String>, item: String)
    ensures
        text::views(final(out)@) == text::views(old(out)@).push(item@),
{
    let ghost before = text::views(out@);
    let ghost shown = item@;
    out.push(item);
    assert(text::views(out@) =~= before.push(shown));
}

/// A signature, cut to its longest length.
fn cut_signature(signature: String) -> (r: String)
    ensures
        r@ == cut(signature@),
{
    truncate(signature.as_str(), LONGEST_SIGNATURE).to_string()
}

/// A line with `"export "` before it where it is of an exported declaration and does not say so.
fn mark_line(line: &str, exported: bool) -> (r: String)
    ensures
        r@ == marked(line@, exported),
{
    if exported && !text::starts_with(line, "export") {
        cut_signature("export ".to_string().concat(line))
    } else {
        cut_signature(line.to_string())
    }
}

/// The signature of the function `name` that begins at a byte offset of the source.
pub fn extract_function_sig(
    lines: &Vec<String>,
    byte_offset: usize,
    name: &str,
    exported: bool,
) -> (r: String)
    ensures
        r@ == function_signature(text::views(lines@), byte_offset as nat, name@, exported),
        r@.len() <= LONGEST_SIGNATURE,
{
    proof {
        lemma_function_signature(text::views(lines@), byte_offset as nat, name@, exported);
    }
    let ghost all = text::views(lines@);
    let line_num: usize = byte_offset_to_line_from_lines(lines, byte_offset);
    let start: usize = if line_num > 0 {
        line_num - 1
    } else {
        0
    };
    let end: usize = if lines.len() - line_num < 3 {
        lines.len()
    } else {
        line_num + 3
    };
    let ghost window = head_window(all, byte_offset as nat);
    let plain = "function ".to_string().concat(name);
    let generator = "function* ".to_string().concat(name);
    assert(window == all.subrange(start as int, end as int));
    let mut i: usize = start;
    while i < end
        invariant
            all == text::views(lines@),
            start <= i <= end <= lines@.len(),
            plain@ == "function "@ + name@,
            generator@ == "function* "@ + name@,
            first_head(window, name@, exported) == first_head(
                all.subrange(i as int, end as int),
                name@,
                exported,
            ),
            function_signature(all, byte_offset as nat, name@, exported) == (match first_head(
                window,
                name@,
                exported,
            ) {
                Some(signature) => signature,
                None => cut(export_prefix(exported) + "function "@ + name@ + "(...)"@),
            }),
            function_signature(all, byte_offset as nat, name@, exported).len()
                <= LONGEST_SIGNATURE,
        decreases end - i,
    {
        let line = text::trim(lines[i].as_str(), CharClass::Space);
        assert(all.subrange(i as int, end as int)[0] == lines@[i as int]@);
        if text::has_text(line.as_str(), plain.as_str()) || text::has_text(
            line.as_str(),
            generator.as_str(),
        ) {
            let head = text::before(line.as_str(), '{');
            let trimmed = text::trim(head.as_str(), CharClass::Space);
            return mark_line(trimmed.as_str(), exported);
        }
        assert(all.subrange(i as int, end as int).drop_first() =~= all.subrange(
            i + 1,
            end as int,
        ));
        i += 1;
    }
    let prefix = if exported {
        "export "
    } else {
        ""
    };
    cut_signature(prefix.to_string().concat("function ").concat(name).concat("(...)"))
}

/// The signature of a type alias.
fn type_alias_signature(
    name: &String,
    start: usize,
    lines: &Vec<String>,
    source: &str,
    exported: bool,
) -> (r: String)
    ensures
        r@ == alias_signature(
            name@,
            start as nat,
            text::views(lines@),
            vstd::utf8::encode_utf8(source@),
            exported,
        ),
{
    let line_num: usize = byte_offset_to_line(source, start);
    if line_num < lines.len() {
        let line = text::trim(lines[line_num].as_str(), CharClass::Space);
        mark_line(line.as_str(), exported)
    } else {
        let prefix = if exported {
            "export "
        } else {
            ""
        };
        cut_signature(prefix.to_string().concat("type ").concat(name.as_str()))
    }
}

/// The signatures of a declaration, with `export` before them where it is exported.
pub fn declaration_signatures(
    decl: &Decl,
    lines: &Vec<String>,
    source: &str,
    exported: bool,
) -> (r: Vec<String>)
    ensures
        text::views(r@) == decl_signatures(
            decl@,
            text::views(lines@),
            vstd::utf8::encode_utf8(source@),
            exported,
        ),
{
    let prefix = if exported {
        "export "
    } else {
        ""
    };
    let mut out: Vec<String> = Vec::new();
    assert(text::views(out@) =~= Seq::<Seq<char>>::empty());
    match decl {
        Decl::Function { id, start } => {
            match id {
                Some(name) => {
                    push_text(
                        &mut out,
                        extract_function_sig(lines, *start, name.as_str(), exported),
                    );
                },
                None => {},
            }
        },
        Decl::Variable { keyword, bindings } => {
            let ghost all = syntax::binding_views(bindings@);
            for i in 0..bindings.len()
                invariant
                    all == syntax::binding_views(bindings@),
                    prefix@ == export_prefix(exported),
                    text::views(out@) == binding_signatures(
                        prefix@,
                        keyword@,
                        all.take(i as int),
                    ),
            {
                proof {
                    assert(all.take(i + 1).drop_last() =~= all.take(i as int));
                    assert(all.take(i + 1).last() == text::opt_view(bindings@[i as int]));
                }
                match &bindings[i] {
                    Some(name) => {
                        push_text(
                            &mut out,
                            cut_signature(
                                prefix.to_string().concat(keyword.as_str()).concat(" ").concat(
                                    name.as_str(),
                                ),
                            ),
                        );
                    },
                    None => {},
                }
            }
            assert(all.take(all.len() as int) =~= all);
        },
        Decl::Class { id } => {
            match id {
                Some(name) => {
                    push_text(
                        &mut out,
                        cut_signature(prefix.to_string().concat("class ").concat(name.as_str())),
                    );
                },
                None => {},
            }
        },
        Decl::Interface { name } => {
            push_text(
                &mut out,
                cut_signature(prefix.to_string().concat("interface ").concat(name.as_str())),
            );
        },
        Decl::TypeAlias { name, start } => {
            push_text(&mut out, type_alias_signature(name, *start, lines, source, exported));
        },
        Decl::Enum { name } => {
            push_text(
                &mut out,
                cut_signature(prefix.to_string().concat("enum ").concat(name.as_str())),
            );
        },
        Decl::Other => {},
    }
    assert(text::views(out@) =~= decl_signatures(
        decl@,
        text::views(lines@),
        vstd::utf8::encode_utf8(source@),
        exported,
    ));
    out
}

/// The signature of a default export.
fn default_export_signature(decl: &DefaultDecl, lines: &Vec<String>) -> (r: String)
    ensures
        r@ == default_signature(decl@, text::views(lines@)),
{
    match decl {
        DefaultDecl::Function { id, start } => {
            let name = match id {
                Some(name) => name.clone(),
                None => "default".to_string(),
            };
            extract_function_sig(lines, *start, name.as_str(), true)
        },
        DefaultDecl::Class { id } => {
            let name = match id {
                Some(name) => name.clone(),
                None => "default".to_string(),
            };
            cut_signature("export default class ".to_string().concat(name.as_str()))
        },
        DefaultDecl::Other => cut_signature("export default ...".to_string()),
    }
}

/// The signatures of a statement.
fn statement_signatures(stmt: &Stmt, lines: &Vec<String>, source: &str) -> (r: Vec<String>)
    ensures
        text::views(r@) == stmt_signatures(
            stmt@,
            text::views(lines@),
            vstd::utf8::encode_utf8(source@),
        ),
{
    let mut out: Vec<String> = Vec::new();
    assert(text::views(out@) =~= Seq::<Seq<char>>::empty());
    match stmt {
        Stmt::ExportNamed { declaration, .. } => {
            match declaration {
                Some(decl) => {
                    return declaration_signatures(decl, lines, source, true);
                },
                None => {},
            }
        },
        Stmt::ExportDefault(decl) => {
            push_text(&mut out, default_export_signature(decl, lines));
        },
        Stmt::ExportAll { source, exported } => {
            let name = match exported {
                Some(name) => " as ".to_string().concat(name.as_str()),
                None => "".to_string(),
            };
            push_text(
                &mut out,
                cut_signature(
                    "export *".to_string().concat(name.as_str()).concat(" from \"").concat(
                        source.as_str(),
                    ).concat("\""),
                ),
            );
        },
        Stmt::Declared(decl) => {
            return declaration_signatures(decl, lines, source, false);
        },
        Stmt::Import { .. } => {},
        Stmt::Other => {},
    }
    assert(text::views(out@) =~= stmt_signatures(
        stmt@,
        text::views(lines@),
        vstd::utf8::encode_utf8(source@),
    ));
    out
}

/// The signatures of a parsed module, with `source` as its text.
pub fn signatures_of_module(body: &Vec<Stmt>, source: &str) -> (r: Vec<String>)
    ensures
        text::views(r@) == module_signatures(
            syntax::stmt_views(body@),
            source_lines(source@),
            vstd::utf8::encode_utf8(source@),
        ),
{
    let lines = text::split(source, CharClass::Is('\n'));
    let ghost bytes = vstd::utf8::encode_utf8(source@);
    let ghost all = syntax::stmt_views(body@);
    let mut out: Vec<String> = Vec::new();
    assert(text::views(out@) =~= Seq::<Seq<char>>::empty());
    for i in 0..body.len()
        invariant
            all == syntax::stmt_views(body@),
            text::views(lines@) == source_lines(source@),
            bytes == vstd::utf8::encode_utf8(source@),
            text::views(out@) == module_signatures(
                all.take(i as int),
                source_lines(source@),
                bytes,
            ),
    {
        let ghost before = text::views(out@);
        let mut more = statement_signatures(&body[i], &lines, source);
        let ghost added = text::views(more@);
        out.append(&mut more);
        proof {
            assert(text::views(out@) =~= before + added);
            assert(all.take(i + 1).drop_last() =~= all.take(i as int));
            assert(all.take(i + 1).last() == body@[i as int]@);
        }
    }
    assert(all.take(all.len() as int) =~= all);
    out
}

/// The signatures of a source file, for the code map; none for a file of another language.
pub fn extract_signatures(path: &str, source: &str) -> (r: Vec<String>)
    ensures
        text::views(r@) == (match syntax::module_syntax(path@, source@) {
            Some(module) => module_signatures(
                module.body,
                source_lines(source@),
                vstd::utf8::encode_utf8(source@),
            ),
            None => Seq::<Seq<char>>::empty(),
        }),
{
    match syntax::parse_module(path, source) {
        Some(module) => signatures_of_module(&module.body, source),
        None => {
            let none: Vec<String> = Vec::new();
            assert(text::views(none@) =~= Seq::<Seq<char>>::empty());
            none
        },
    }
}

// ---------------------------------------------------------------------------------------------
// What each statement adds
// ---------------------------------------------------------------------------------------------

/// The imports of a module are those of its statements, in their order: every name of an import,
/// with the module that it comes from, and as a type alone where the import or the name says so.
pub proof fn law_imports(a: Seq<StmtView>, b: Seq<StmtView>, stmt: StmtView)
    ensures
        module_imports(a + b) == module_imports(a) + module_imports(b),
        match stmt {
            StmtView::Import { source, type_only, names: Some(names) } => {
                let found = module_imports(seq![stmt]);
                &&& found.len() == names.len()
                &&& forall|i: int|
                    0 <= i < names.len() ==> (#[trigger] found[i]) == (
                        source,
                        names[i].0,
                        names[i].1,
                        type_only || names[i].2,
                    )
            },
            _ => module_imports(seq![stmt]).len() == 0,
        },
{
    let part = |s: StmtView| stmt_imports(s);
    let whole = |s: Seq<StmtView>| module_imports(s);
    lists::lemma_parts_add(a, b, part, whole);
    assert(whole(seq![stmt]) == part(stmt));
}

/// The re-exports of a module are those of its statements, in their order: every name of an export
/// from another module, and a star for an export of all of it, under the name that it is given.
pub proof fn law_reexports(a: Seq<StmtView>, b: Seq<StmtView>, stmt: StmtView)
    ensures
        module_reexports(a + b) == module_reexports(a) + module_reexports(b),
        match stmt {
            StmtView::ExportNamed { source: Some(source), names, .. } => {
                let found = module_reexports(seq![stmt]);
                &&& found.len() == names.len()
                &&& forall|i: int|
                    0 <= i < names.len() ==> (#[trigger] found[i]) == (
                        source,
                        names[i].0,
                        names[i].1,
                    )
            },
            StmtView::ExportAll { source, exported: Some(name) } => module_reexports(seq![stmt])
                == seq![(source, "*"@, name)],
            StmtView::ExportAll { source, exported: None } => module_reexports(seq![stmt]) == seq![
                (source, "*"@, "*"@),
            ],
            _ => module_reexports(seq![stmt]).len() == 0,
        },
{
    let part = |s: StmtView| stmt_reexports(s);
    let whole = |s: Seq<StmtView>| module_reexports(s);
    lists::lemma_parts_add(a, b, part, whole);
    assert(whole(seq![stmt]) == part(stmt));
}

/// What a declaration declares: its name with its kind, and every name that a variable declaration
/// binds.
pub proof fn law_declared(decl: DeclView)
    ensures
        match decl {
            DeclView::Function { id: Some(name), .. } => decl_exports(decl) == seq![
                (name, ExportKind::Function),
            ],
            DeclView::Class { id: Some(name) } => decl_exports(decl) == seq![
                (name, ExportKind::Class),
            ],
            DeclView::Interface { name } => decl_exports(decl) == seq![
                (name, ExportKind::Interface),
            ],
            DeclView::TypeAlias { name, .. } => decl_exports(decl) == seq![
                (name, ExportKind::TypeAlias),
            ],
            DeclView::Enum { name } => decl_exports(decl) == seq![(name, ExportKind::Enum)],
            DeclView::Variable { bindings, .. } => decl_exports(decl) == bindings.filter(
                |b: Option<Seq<char>>| b is Some,
            ).map_values(|b: Option<Seq<char>>| (b->0, ExportKind::Variable)),
            _ => decl_exports(decl).len() == 0,
        },
{
    if let DeclView::Variable { bindings, .. } = decl {
        lists::lemma_kept(
            bindings,
            |b: Option<Seq<char>>| b is Some,
            |b: Option<Seq<char>>| (b->0, ExportKind::Variable),
            |s: Seq<Option<Seq<char>>>| binding_exports(s),
        );
    }
}

/// The names that a module declares are those of its statements, in their order, exported or not.
pub proof fn law_declares(a: Seq<StmtView>, b: Seq<StmtView>, stmt: StmtView)
    ensures
        module_declares(a + b) == module_declares(a) + module_declares(b),
        match stmt {
            StmtView::Declared(decl) => module_declares(seq![stmt]) == decl_exports(decl),
            StmtView::ExportNamed { declaration: Some(decl), .. } => module_declares(seq![stmt])
                == decl_exports(decl),
            StmtView::ExportDefault(DefaultView::Function { id: Some(name), .. }) =>
                module_declares(seq![stmt]) == seq![(name, ExportKind::Function)],
            StmtView::ExportDefault(DefaultView::Class { id: Some(name) }) => module_declares(
                seq![stmt],
            ) == seq![(name, ExportKind::Class)],
            _ => module_declares(seq![stmt]).len() == 0,
        },
{
    let part = |s: StmtView| stmt_declares(s);
    let whole = |s: Seq<StmtView>| module_declares(s);
    lists::lemma_parts_add(a, b, part, whole);
    assert(whole(seq![stmt]) == part(stmt));
}

/// A name has the kind that it is first declared with, and that of a variable where it is not
/// declared.
pub proof fn law_kind_declared(body: Seq<StmtView>, name: Seq<char>)
    ensures
        forall|i: int|
            0 <= i < module_declares(body).len() && (#[trigger] module_declares(body)[i]).0 == name
                && (forall|j: int|
                0 <= j < i ==> (#[trigger] module_declares(body)[j]).0 != name) ==> kind_of(
                body,
                name,
            ) == module_declares(body)[i].1,
        (forall|j: int|
            0 <= j < module_declares(body).len() ==> (#[trigger] module_declares(body)[j]).0 != name)
            ==> kind_of(body, name) == ExportKind::Variable,
{
    lemma_kind_in(module_declares(body), name);
}

/// The first declaration of a name gives its kind.
proof fn lemma_kind_in(declared: Seq<(Seq<char>, ExportKind)>, name: Seq<char>)
    ensures
        forall|i: int|
            0 <= i < declared.len() && (#[trigger] declared[i]).0 == name && (forall|j: int|
                0 <= j < i ==> (#[trigger] declared[j]).0 != name) ==> kind_in(declared, name)
                == declared[i].1,
        (forall|j: int| 0 <= j < declared.len() ==> (#[trigger] declared[j]).0 != name) ==> kind_in(
            declared,
            name,
        ) == ExportKind::Variable,
    decreases declared.len(),
{
    if declared.len() > 0 {
        let rest = declared.drop_first();
        lemma_kind_in(rest, name);
        assert forall|i: int|
            0 <= i < declared.len() && (#[trigger] declared[i]).0 == name && (forall|j: int|
                0 <= j < i ==> (#[trigger] declared[j]).0 != name) implies kind_in(declared, name)
            == declared[i].1 by {
            if i > 0 {
                assert(declared[0].0 != name);
                assert(rest[i - 1] == declared[i]);
                assert forall|j: int| 0 <= j < i - 1 implies (#[trigger] rest[j]).0 != name by {
                    assert(declared[j + 1].0 != name);
                }
            }
        }
        if forall|j: int| 0 <= j < declared.len() ==> (#[trigger] declared[j]).0 != name {
            assert(declared[0].0 != name);
            assert forall|j: int| 0 <= j < rest.len() implies (#[trigger] rest[j]).0 != name by {
                assert(declared[j + 1].0 != name);
            }
        }
    }
}

/// The exports of a module are those of its statements, in their order: what an export declares,
/// every name that a list exports under the name it is given and with the kind it is declared with,
/// and a default.
pub proof fn law_exports(
    a: Seq<StmtView>,
    b: Seq<StmtView>,
    body: Seq<StmtView>,
    stmt: StmtView,
)
    ensures
        module_exports(body) == exports_of(body, body),
        exports_of(a + b, body) == exports_of(a, body) + exports_of(b, body),
        match stmt {
            StmtView::ExportNamed { declaration: Some(decl), .. } => exports_of(seq![stmt], body)
                == decl_exports(decl),
            StmtView::ExportNamed { declaration: None, source: None, names } => {
                let found = exports_of(seq![stmt], body);
                &&& found.len() == names.len()
                &&& forall|i: int|
                    0 <= i < names.len() ==> (#[trigger] found[i]).0 == names[i].1 && found[i].1
                        == kind_of(body, names[i].0)
            },
            StmtView::ExportDefault(_) => exports_of(seq![stmt], body) == seq![
                ("default"@, ExportKind::Default),
            ],
            _ => exports_of(seq![stmt], body).len() == 0,
        },
{
    let part = |s: StmtView| stmt_exports(s, body);
    let whole = |s: Seq<StmtView>| exports_of(s, body);
    lists::lemma_parts_add(a, b, part, whole);
    assert(whole(seq![stmt]) == part(stmt));
}

/// The names that count as exported are those of the statements: what an export declares, and every
/// name that a list exports, as it stands in the module.
pub proof fn law_locals(a: Seq<StmtView>, b: Seq<StmtView>, stmt: StmtView)
    ensures
        module_locals(a + b) == module_locals(a) + module_locals(b),
        match stmt {
            StmtView::ExportNamed { declaration: Some(decl), .. } => {
                let found = module_locals(seq![stmt]);
                &&& found.len() == decl_exports(decl).len()
                &&& forall|i: int|
                    0 <= i < found.len() ==> (#[trigger] found[i]) == decl_exports(decl)[i].0
            },
            StmtView::ExportNamed { declaration: None, source: None, names } => {
                let found = module_locals(seq![stmt]);
                &&& found.len() == names.len()
                &&& forall|i: int| 0 <= i < names.len() ==> (#[trigger] found[i]) == names[i].0
            },
            _ => module_locals(seq![stmt]).len() == 0,
        },
{
    let part = |s: StmtView| stmt_locals(s);
    let whole = |s: Seq<StmtView>| module_locals(s);
    lists::lemma_parts_add(a, b, part, whole);
    assert(whole(seq![stmt]) == part(stmt));
}

/// The symbols that are kept are those of the outermost scope, in their order, each with the number
/// of its references; it is exported if and only if its name is among those that are.
pub proof fn law_symbols_kept(symbols: Seq<ScopedView>, locals: Seq<Seq<char>>)
    ensures
        kept_symbols(symbols, locals) == symbols.filter(
            |s: ScopedView| s.scope == s.root_scope,
        ).map_values(|s: ScopedView| (s.name, locals.contains(s.name), s.references)),
{
    lists::lemma_kept(
        symbols,
        |s: ScopedView| s.scope == s.root_scope,
        |s: ScopedView| (s.name, locals.contains(s.name), s.references),
        |s: Seq<ScopedView>| kept_symbols(s, locals),
    );
}

/// A signature that is cut is the longest beginning of it that takes at most a hundred bytes.
pub proof fn law_cut(signature: Seq<char>)
    ensures
        cut(signature).is_prefix_of(signature),
        text::byte_len(cut(signature)) <= 100,
        cut(signature).len() < signature.len() ==> text::byte_len(
            signature.take(cut(signature).len() as int + 1),
        ) > 100,
    decreases signature.len(),
{
    law_truncated(signature, 100);
    if signature.len() > 0 && text::byte_len(signature) > 100 {
        let short = signature.drop_last();
        law_cut(short);
        if cut(signature).len() == short.len() {
            assert(signature.take(cut(signature).len() as int + 1) =~= signature);
        } else {
            assert(short.take(cut(signature).len() as int + 1) =~= signature.take(
                cut(signature).len() as int + 1,
            ));
        }
    }
}

/// The signatures of a module are those of its statements, in their order, each cut: what is
/// exported says so, and every name that a variable declaration binds has one.
pub proof fn law_signatures(
    a: Seq<StmtView>,
    b: Seq<StmtView>,
    lines: Seq<Seq<char>>,
    bytes: Seq<u8>,
    stmt: StmtView,
)
    ensures
        module_signatures(a + b, lines, bytes) == module_signatures(a, lines, bytes)
            + module_signatures(b, lines, bytes),
        match stmt {
            StmtView::ExportNamed { declaration: Some(decl), .. } => module_signatures(
                seq![stmt],
                lines,
                bytes,
            ) == decl_signatures(decl, lines, bytes, true),
            StmtView::Declared(decl) => module_signatures(seq![stmt], lines, bytes)
                == decl_signatures(decl, lines, bytes, false),
            StmtView::ExportDefault(DefaultView::Function { id: Some(name), start }) =>
                module_signatures(seq![stmt], lines, bytes) == seq![
                function_signature(lines, start as nat, name, true),
            ],
            StmtView::ExportDefault(DefaultView::Function { id: None, start }) =>
                module_signatures(seq![stmt], lines, bytes) == seq![
                function_signature(lines, start as nat, "default"@, true),
            ],
            StmtView::ExportDefault(DefaultView::Class { id: Some(name) }) => module_signatures(
                seq![stmt],
                lines,
                bytes,
            ) == seq![cut("export default class "@ + name)],
            StmtView::ExportDefault(DefaultView::Class { id: None }) => module_signatures(
                seq![stmt],
                lines,
                bytes,
            ) == seq![cut("export default class "@ + "default"@)],
            StmtView::ExportDefault(DefaultView::Other) => module_signatures(
                seq![stmt],
                lines,
                bytes,
            ) == seq![cut("export default ..."@)],
            StmtView::ExportAll { source, exported: Some(name) } => module_signatures(
                seq![stmt],
                lines,
                bytes,
            ) == seq![
                cut("export * as "@ + name + " from \""@ + source + "\""@),
            ],
            StmtView::ExportAll { source, exported: None } => module_signatures(
                seq![stmt],
                lines,
                bytes,
            ) == seq![cut("export * from \""@ + source + "\""@)],
            _ => module_signatures(seq![stmt], lines, bytes).len() == 0,
        },
{
    let part = |s: StmtView| stmt_signatures(s, lines, bytes);
    let whole = |s: Seq<StmtView>| module_signatures(s, lines, bytes);
    lists::lemma_parts_add(a, b, part, whole);
    assert(whole(seq![stmt]) == part(stmt));
    match stmt {
        StmtView::ExportAll { source, exported: Some(name) } => {
            reveal_strlit("export *");
            reveal_strlit(" as ");
            reveal_strlit("export * as ");
            assert("export *"@ + (" as "@ + name) + " from \""@ + source + "\""@ =~= "export * as "@
                + name + " from \""@ + source + "\""@);
        },
        StmtView::ExportAll { source, exported: None } => {
            reveal_strlit("export *");
            reveal_strlit("");
            reveal_strlit(" from \"");
            reveal_strlit("export * from \"");
            assert("export *"@ + ""@ + " from \""@ + source + "\""@ =~= "export * from \""@ + source
                + "\""@);
        },
        _ => {},
    }
}

/// What a declaration has for its signatures: a function the line that heads it, a type alias its
/// own line, and others what they are and their name.
pub proof fn law_decl_signatures(
    decl: DeclView,
    lines: Seq<Seq<char>>,
    bytes: Seq<u8>,
    exported: bool,
)
    ensures
        ({
            let prefix = if exported {
                "export "@
            } else {
                ""@
            };
            let found = decl_signatures(decl, lines, bytes, exported);
            match decl {
                DeclView::Function { id: Some(name), start } => found == seq![
                    function_signature(lines, start as nat, name, exported),
                ],
                DeclView::Variable { keyword, bindings } => found == bindings.filter(
                    |b: Option<Seq<char>>| b is Some,
                ).map_values(|b: Option<Seq<char>>| cut(prefix + keyword + " "@ + b->0)),
                DeclView::Class { id: Some(name) } => found == seq![
                    cut(prefix + "class "@ + name),
                ],
                DeclView::Interface { name } => found == seq![cut(prefix + "interface "@ + name)],
                DeclView::Enum { name } => found == seq![cut(prefix + "enum "@ + name)],
                DeclView::TypeAlias { name, start } => {
                    let line = bytes.take(
                        if start <= bytes.len() {
                            start as int
                        } else {
                            bytes.len() as int
                        },
                    ).filter(|x: u8| x == 10).len();
                    &&& found.len() == 1
                    &&& line < lines.len() ==> {
                        let shown = text::trim_by(lines[line as int], CharClass::Space);
                        found[0] == (if exported && !("export"@).is_prefix_of(shown) {
                            cut("export "@ + shown)
                        } else {
                            cut(shown)
                        })
                    }
                    &&& line >= lines.len() ==> found[0] == cut(prefix + "type "@ + name)
                },
                _ => found.len() == 0,
            }
        }),
{
    let prefix = export_prefix(exported);
    match decl {
        DeclView::Variable { keyword, bindings } => {
            lists::lemma_kept(
                bindings,
                |b: Option<Seq<char>>| b is Some,
                |b: Option<Seq<char>>| cut(prefix + keyword + " "@ + b->0),
                |s: Seq<Option<Seq<char>>>| binding_signatures(prefix, keyword, s),
            );
        },
        DeclView::TypeAlias { name, start } => {
            let end = least(start as nat, bytes.len()) as int;
            lists::lemma_count(
                bytes.take(end),
                |x: u8| x == 10,
                |s: Seq<u8>| line_feeds(s),
            );
        },
        _ => {},
    }
}

/// The first line that heads a function gives its signature.
proof fn lemma_heads(lines: Seq<Seq<char>>, name: Seq<char>, exported: bool, k: int)
    requires
        0 <= k <= lines.len(),
        forall|i: int|
            0 <= i < k ==> !heads_function(
                text::trim_by(#[trigger] lines[i], CharClass::Space),
                name,
            ),
    ensures
        k < lines.len() && heads_function(text::trim_by(lines[k], CharClass::Space), name)
            ==> first_head(lines, name, exported) == Some(
            head_signature(text::trim_by(lines[k], CharClass::Space), exported),
        ),
        k == lines.len() ==> first_head(lines, name, exported) is None,
    decreases lines.len(),
{
    if k > 0 {
        let rest = lines.drop_first();
        assert(!heads_function(text::trim_by(lines[0], CharClass::Space), name));
        assert forall|i: int| 0 <= i < k - 1 implies !heads_function(
            text::trim_by(#[trigger] rest[i], CharClass::Space),
            name,
        ) by {
            assert(rest[i] == lines[i + 1]);
        }
        lemma_heads(rest, name, exported, k - 1);
    }
}

/// The signature of a function is the first line that heads it, among the line that it begins on,
/// the one before and the two behind: up to the brace, trimmed, and marked as exported where it
/// does not say so. Where none does, it is made up of the name.
pub proof fn law_function_signature(
    lines: Seq<Seq<char>>,
    offset: nat,
    name: Seq<char>,
    exported: bool,
    k: int,
)
    requires
        ({
            let at = line_at(lines, offset) as int;
            let from = if at > 0 {
                at - 1
            } else {
                0
            };
            let to = if at + 3 <= lines.len() {
                at + 3
            } else {
                lines.len() as int
            };
            &&& from <= k <= to
            &&& from <= to
            &&& forall|i: int|
                from <= i < k ==> !text::contains(
                    text::trim_by(#[trigger] lines[i], CharClass::Space),
                    "function "@ + name,
                ) && !text::contains(
                    text::trim_by(lines[i], CharClass::Space),
                    "function* "@ + name,
                )
        }),
    ensures
        ({
            let at = line_at(lines, offset) as int;
            let to = if at + 3 <= lines.len() {
                at + 3
            } else {
                lines.len() as int
            };
            let found = function_signature(lines, offset, name, exported);
            &&& k == to && exported ==> found == cut(
                "export "@ + "function "@ + name + "(...)"@,
            )
            &&& k == to && !exported ==> found == cut(""@ + "function "@ + name + "(...)"@)
            &&& k < to && (text::contains(
                text::trim_by(lines[k], CharClass::Space),
                "function "@ + name,
            ) || text::contains(
                text::trim_by(lines[k], CharClass::Space),
                "function* "@ + name,
            )) ==> {
                let line = text::trim_by(lines[k], CharClass::Space);
                let shown = text::trim_by(text::until(line, '{'), CharClass::Space);
                found == (if exported && !("export"@).is_prefix_of(shown) {
                    cut("export "@ + shown)
                } else {
                    cut(shown)
                })
            }
        }),
{
    let at = line_at(lines, offset) as int;
    let from = if at > 0 {
        at - 1
    } else {
        0
    };
    let window = head_window(lines, offset);
    assert forall|i: int| 0 <= i < k - from implies !heads_function(
        text::trim_by(#[trigger] window[i], CharClass::Space),
        name,
    ) by {
        assert(window[i] == lines[from + i]);
    }
    lemma_heads(window, name, exported, k - from);
}

/// As many line feeds count as there are.
pub proof fn law_line_feeds(bytes: Seq<u8>)
    ensures
        line_feeds(bytes) == bytes.filter(|x: u8| x == 10).len(),
{
    lists::lemma_count(bytes, |x: u8| x == 10, |s: Seq<u8>| line_feeds(s));
}

/// An analysis holds the imports, exports and re-exports of all statements, and the symbols of the
/// outermost scope with their references, each marked as exported if and only if a statement
/// exports its name.
pub proof fn law_analysis(analysis: FileAnalysis, body: Seq<StmtView>, symbols: Seq<ScopedView>)
    requires
        analyzes(analysis, body, symbols),
    ensures
        analysis.imports@.map_values(|i: Import| i@) == body.map_values(
            |s: StmtView| module_imports(seq![s]),
        ).flatten(),
        analysis.exports@.map_values(|e: Export| e@) == body.map_values(
            |s: StmtView| exports_of(seq![s], body),
        ).flatten(),
        analysis.reexports@.map_values(|e: ReExport| e@) == body.map_values(
            |s: StmtView| module_reexports(seq![s]),
        ).flatten(),
        ({
            let kept = symbols.filter(|s: ScopedView| s.scope == s.root_scope);
            let exported = body.map_values(|s: StmtView| module_locals(seq![s])).flatten();
            &&& analysis.symbols@.len() == kept.len()
            &&& forall|i: int|
                0 <= i < kept.len() ==> {
                    &&& (#[trigger] analysis.symbols@[i]).name@ == kept[i].name
                    &&& analysis.symbols@[i].reference_count == kept[i].references
                    &&& analysis.symbols@[i].is_exported == exported.contains(kept[i].name)
                }
        }),
{
    let imports = |s: StmtView| module_imports(seq![s]);
    let exports = |s: StmtView| exports_of(seq![s], body);
    let reexports = |s: StmtView| module_reexports(seq![s]);
    let locals = |s: StmtView| module_locals(seq![s]);
    assert forall|s: StmtView| #[trigger] imports(s) == stmt_imports(s) by {
        lemma_one_statement(s, body);
    }
    assert forall|s: StmtView| #[trigger] exports(s) == stmt_exports(s, body) by {
        lemma_one_statement(s, body);
    }
    assert forall|s: StmtView| #[trigger] reexports(s) == stmt_reexports(s) by {
        lemma_one_statement(s, body);
    }
    assert forall|s: StmtView| #[trigger] locals(s) == stmt_locals(s) by {
        lemma_one_statement(s, body);
    }
    lists::lemma_parts(body, imports, |s: Seq<StmtView>| module_imports(s));
    lists::lemma_parts(body, exports, |s: Seq<StmtView>| exports_of(s, body));
    lists::lemma_parts(body, reexports, |s: Seq<StmtView>| module_reexports(s));
    lists::lemma_parts(body, locals, |s: Seq<StmtView>| module_locals(s));
    law_symbols_kept(symbols, module_locals(body));
    let views = types::symbol_views(analysis.symbols@);
    let kept = symbols.filter(|s: ScopedView| s.scope == s.root_scope);
    let exported = body.map_values(locals).flatten();
    assert(exported == module_locals(body));
    assert(views.len() == kept.len());
    assert forall|i: int| 0 <= i < kept.len() implies {
        &&& (#[trigger] analysis.symbols@[i]).name@ == kept[i].name
        &&& analysis.symbols@[i].reference_count == kept[i].references
        &&& analysis.symbols@[i].is_exported == exported.contains(kept[i].name)
    } by {
        assert(views[i] == analysis.symbols@[i]@);
        assert(views[i].0 == kept[i].name && views[i].2 == kept[i].references);
    }
}

/// What one statement adds.
proof fn lemma_one_statement(s: StmtView, body: Seq<StmtView>)
    ensures
        module_imports(seq![s]) == stmt_imports(s),
        exports_of(seq![s], body) == stmt_exports(s, body),
        module_reexports(seq![s]) == stmt_reexports(s),
        module_locals(seq![s]) == stmt_locals(s),
{
    reveal_with_fuel(module_imports, 2);
    reveal_with_fuel(exports_of, 2);
    reveal_with_fuel(module_reexports, 2);
    reveal_with_fuel(module_locals, 2);
    assert(seq![s].drop_last() =~= Seq::<StmtView>::empty());
    assert(module_imports(seq![s]) =~= stmt_imports(s));
    assert(exports_of(seq![s], body) =~= stmt_exports(s, body));
    assert(module_reexports(seq![s]) =~= stmt_reexports(s));
    assert(module_locals(seq![s]) =~= stmt_locals(s));
}

}
