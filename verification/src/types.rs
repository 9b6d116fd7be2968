//! Data structures shared by the analysis of a file and by the index.
use vstd::prelude::*;

verus! {

/// What a source file imports, exports and declares.
#[derive(Debug, Clone)]
pub struct FileAnalysis {
    pub imports: Vec<Import>,
    pub exports: Vec<Export>,
    pub reexports: Vec<ReExport>,
    pub symbols: Vec<SymbolInfo>,
    /// How many errors the parser passed over.
    pub parse_errors: usize,
}

impl Default for FileAnalysis {
    /// The analysis of a file without content.
    fn default() -> (r: FileAnalysis)
        ensures
            r.imports@ == Seq::<Import>::empty(),
            r.exports@ == Seq::<Export>::empty(),
            r.reexports@ == Seq::<ReExport>::empty(),
            r.symbols@ == Seq::<SymbolInfo>::empty(),
            r.parse_errors == 0,
    {
        FileAnalysis {
            imports: Vec::new(),
            exports: Vec::new(),
            reexports: Vec::new(),
            symbols: Vec::new(),
            parse_errors: 0,
        }
    }
}

/// One name that a file imports.
#[derive(Debug, Clone)]
pub struct Import {
    pub source: String,
    pub name: String,
    pub kind: ImportKind,
    /// Whether the name stands for a type alone.
    pub type_only: bool,
}

/// How a name is imported.
#[derive(Debug, Clone, Copy, PartialEq, Eq, Structural)]
pub enum ImportKind {
    Named,
    Default,
    Namespace,
}

/// One name that a file exports.
#[derive(Debug, Clone)]
pub struct Export {
    pub name: String,
    pub kind: ExportKind,
}

/// What an exported name stands for.
#[derive(Debug, Clone, Copy, PartialEq, Eq, Structural)]
pub enum ExportKind {
    Function,
    Variable,
    Class,
    Interface,
    TypeAlias,
    Enum,
    Default,
}

/// One name that a file exports from another.
#[derive(Debug, Clone)]
pub struct ReExport {
    pub source: String,
    pub local: String,
    pub exported: String,
}

/// A symbol of a file.
#[derive(Debug, Clone)]
pub struct SymbolInfo {
    pub name: String,
    pub is_exported: bool,
    pub reference_count: usize,
}

impl View for Import {
    type V = (Seq<char>, Seq<char>, ImportKind, bool);

    open spec fn view(&self) -> (Seq<char>, Seq<char>, ImportKind, bool) {
        (self.source@, self.name@, self.kind, self.type_only)
    }
}

impl View for Export {
    type V = (Seq<char>, ExportKind);

    open spec fn view(&self) -> (Seq<char>, ExportKind) {
        (self.name@, self.kind)
    }
}

impl View for ReExport {
    type V = (Seq<char>, Seq<char>, Seq<char>);

    open spec fn view(&self) -> (Seq<char>, Seq<char>, Seq<char>) {
        (self.source@, self.local@, self.exported@)
    }
}

impl View for SymbolInfo {
    type V = (Seq<char>, bool, usize);

    open spec fn view(&self) -> (Seq<char>, bool, usize) {
        (self.name@, self.is_exported, self.reference_count)
    }
}

/// The imports as tuples of source, local name, kind, and whether they stand for types alone.
pub open spec fn import_views(v: Seq<Import>) -> Seq<(Seq<char>, Seq<char>, ImportKind, bool)> {
    v.map_values(|i: Import| i@)
}

/// The exports as pairs of name and kind.
pub open spec fn export_views(v: Seq<Export>) -> Seq<(Seq<char>, ExportKind)> {
    v.map_values(|e: Export| e@)
}

/// The re-exports as triples of source, local name and exported name.
pub open spec fn reexport_views(v: Seq<ReExport>) -> Seq<(Seq<char>, Seq<char>, Seq<char>)> {
    v.map_values(|e: ReExport| e@)
}

/// The symbols as triples of name, export flag and number of references.
pub open spec fn symbol_views(v: Seq<SymbolInfo>) -> Seq<(Seq<char>, bool, usize)> {
    v.map_values(|s: SymbolInfo| s@)
}

/// The name of an export kind.
pub open spec fn kind_name(kind: ExportKind) -> Seq<char> {
    match kind {
        ExportKind::Function => "Function"@,
        ExportKind::Variable => "Variable"@,
        ExportKind::Class => "Class"@,
        ExportKind::Interface => "Interface"@,
        ExportKind::TypeAlias => "TypeAlias"@,
        ExportKind::Enum => "Enum"@,
        ExportKind::Default => "Default"@,
    }
}

impl ExportKind {
    /// The name of the kind, as it stands in the index.
    pub fn name(&self) -> (r: String)
        ensures
            r@ == kind_name(*self),
    {
        let name = match self {
            ExportKind::Function => "Function",
            ExportKind::Variable => "Variable",
            ExportKind::Class => "Class",
            ExportKind::Interface => "Interface",
            ExportKind::TypeAlias => "TypeAlias",
            ExportKind::Enum => "Enum",
            ExportKind::Default => "Default",
        };
        name.to_string()
    }
}

/// Different kinds have different names.
pub proof fn law_kind_names_differ(a: ExportKind, b: ExportKind)
    ensures
        kind_name(a) == kind_name(b) ==> a == b,
{
    reveal_strlit("Function");
    reveal_strlit("Variable");
    reveal_strlit("Class");
    reveal_strlit("Interface");
    reveal_strlit("TypeAlias");
    reveal_strlit("Enum");
    reveal_strlit("Default");
    assert("Function"@[0] == 'F' && "Variable"@[0] == 'V' && "Class"@[0] == 'C' && "Interface"@[0]
        == 'I' && "TypeAlias"@[0] == 'T' && "Enum"@[0] == 'E' && "Default"@[0] == 'D');
}

}
