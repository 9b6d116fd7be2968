//! Symbol search: one line for each symbol found.
use vstd::prelude::*;

use crate::db::{Index, SymbolResult};
use crate::lists;
use crate::output::{Output, OutputView};
use crate::queries;
use crate::queries::SymbolResultView;
use crate::symbol;
use crate::text;

verus! {

/// The line on a symbol.
pub open spec fn result_line(s: SymbolResultView) -> Seq<char> {
    s.file_path + symbol::line_suffix(s.line) + "  "@ + s.name + " "@ + s.kind + " ("@
        + symbol::visibility(s.is_exported) + ", "@ + text::signed(s.ref_count as int)
        + " refs)\n"@
}

/// The lines on some symbols.
pub open spec fn result_lines(found: Seq<SymbolResultView>) -> Seq<char>
    decreases found.len(),
{
    if found.len() == 0 {
        Seq::empty()
    } else {
        result_lines(found.drop_last()) + result_line(found.last())
    }
}

/// The line on a symbol.
fn render_result(s: &SymbolResult) -> (r: String)
    ensures
        r@ == result_line(s@),
{
    let suffix = symbol::line_info(s.line);
    let seen = if s.is_exported {
        "exported"
    } else {
        "local"
    };
    let mut out = s.file_path.clone();
    out.append(suffix.as_str());
    out.append("  ");
    out.append(s.name.as_str());
    out.append(" ");
    out.append(s.kind.as_str());
    out.append(" (");
    out.append(seen);
    out.append(", ");
    out.append(text::signed_of(s.ref_count).as_str());
    out.append(" refs)\n");
    out
}

/// The lines on some symbols.
pub fn render_results(found: &Vec<SymbolResult>) -> (r: String)
    ensures
        r@ == result_lines(queries::result_views(found@)),
{
    let ghost fv = queries::result_views(found@);
    let mut out = String::new();
    assert(fv.take(0) =~= Seq::<SymbolResultView>::empty());
    for i in 0..found.len()
        invariant
            fv == queries::result_views(found@),
            out@ == result_lines(fv.take(i as int)),
    {
        proof {
            assert(fv.take(i + 1).drop_last() =~= fv.take(i as int));
            assert(fv.take(i + 1).last() == found@[i as int]@);
        }
        let line = render_result(&found[i]);
        out.append(line.as_str());
    }
    assert(fv.take(fv.len() as int) =~= fv);
    out
}

/// The answer to a search for a pattern, at most `limit` symbols.
pub fn run_query(index: &Index, pattern: &str, limit: usize) -> (r: Output)
    requires
        index.wf(),
    ensures
        r@ == ({
            let found = queries::found_symbols(index@, pattern@, limit as nat, false);
            if found.len() == 0 {
                OutputView::Stderr("No symbols matching '"@ + pattern@ + "'\n"@)
            } else {
                OutputView::Stdout(result_lines(found))
            }
        }),
{
    let found = queries::query_symbols(index, pattern, limit, false);
    assert(queries::result_views(found@).len() == found@.len());
    if found.len() == 0 {
        Output::Stderr("No symbols matching '".to_string().concat(pattern).concat("'\n"))
    } else {
        Output::Stdout(render_results(&found))
    }
}

/// Every symbol that is found has a line, in their order, with its file, its line where that is
/// known, its name, its kind, whether it is exported, and how often it is referred to.
pub proof fn law_results_listed(found: Seq<SymbolResultView>)
    ensures
        result_lines(found) == found.map_values(
            |s: SymbolResultView|
                s.file_path + (match s.line {
                    Some(l) => ":"@ + text::signed(l as int),
                    None => Seq::empty(),
                }) + "  "@ + s.name + " "@ + s.kind + " ("@ + (if s.is_exported {
                    "exported"@
                } else {
                    "local"@
                }) + ", "@ + text::signed(s.ref_count as int) + " refs)\n"@,
        ).flatten(),
{
    lists::lemma_parts(
        found,
        |s: SymbolResultView|
            s.file_path + (match s.line {
                Some(l) => ":"@ + text::signed(l as int),
                None => Seq::empty(),
            }) + "  "@ + s.name + " "@ + s.kind + " ("@ + (if s.is_exported {
                "exported"@
            } else {
                "local"@
            }) + ", "@ + text::signed(s.ref_count as int) + " refs)\n"@,
        |s: Seq<SymbolResultView>| result_lines(s),
    );
}

}
