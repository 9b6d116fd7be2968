//! The answers of the tool server.
use vstd::prelude::*;

use crate::db::{Index, IndexView};
use crate::lists;
use crate::queries;
use crate::queries::DepView;
use crate::query;
use crate::text;

verus! {

/// The number of tokens of a map where none is asked for.
pub const DEFAULT_MAP_TOKENS: usize = 1500;

/// The number of symbols where none is asked for.
pub const DEFAULT_SYMBOL_LIMIT: usize = 10;

/// The answer to a question for a symbol by a part of its name.
pub open spec fn symbol_answer(v: IndexView, pattern: Seq<char>, limit: nat) -> Seq<char> {
    let found = queries::found_symbols(v, pattern, limit, false);
    if found.len() == 0 {
        "No symbols matching '"@ + pattern + "'"@
    } else {
        query::result_lines(found)
    }
}

/// The lines on some dependencies.
pub open spec fn dep_lines(deps: Seq<DepView>) -> Seq<char>
    decreases deps.len(),
{
    if deps.len() == 0 {
        Seq::empty()
    } else {
        dep_lines(deps.drop_last()) + ("  "@ + deps.last().file_path + " ("@ + deps.last().edge_type
            + ")\n"@)
    }
}

/// The answer to a question for the dependencies of a file in a direction.
pub open spec fn deps_answer(v: IndexView, path: Seq<char>, direction: Seq<char>) -> Seq<char> {
    let deps = queries::deps_of(v, path, queries::asks_importers(direction));
    if deps.len() == 0 {
        "No "@ + direction + " found for '"@ + path + "'"@
    } else {
        direction + " of "@ + path + ":\n"@ + dep_lines(deps)
    }
}

/// The answer to a question for a symbol by a part of its name.
pub fn lookup_symbol(index: &Index, pattern: &str, limit: Option<usize>) -> (r: String)
    requires
        index.wf(),
    ensures
        r@ == symbol_answer(
            index@,
            pattern@,
            match limit {
                Some(n) => n as nat,
                None => DEFAULT_SYMBOL_LIMIT as nat,
            },
        ),
{
    let limit: usize = match limit {
        Some(n) => n,
        None => DEFAULT_SYMBOL_LIMIT,
    };
    let found = queries::query_symbols(index, pattern, limit, false);
    assert(queries::result_views(found@).len() == found@.len());
    if found.len() == 0 {
        "No symbols matching '".to_string().concat(pattern).concat("'")
    } else {
        query::render_results(&found)
    }
}

/// The answer to a question for the dependencies of a file: what it imports, unless another
/// direction is asked for.
pub fn get_file_deps(index: &Index, file_path: &str, direction: Option<&str>) -> (r: String)
    requires
        index.wf(),
    ensures
        r@ == deps_answer(
            index@,
            file_path@,
            match direction {
                Some(d) => d@,
                None => "imports"@,
            },
        ),
{
    let direction: &str = match direction {
        Some(d) => d,
        None => "imports",
    };
    let deps = queries::get_file_deps(index, file_path, direction);
    let ghost dv = queries::dep_views(deps@);
    assert(dv.len() == deps@.len());
    if deps.len() == 0 {
        return "No ".to_string().concat(direction).concat(" found for '").concat(file_path).concat(
            "'",
        );
    }
    let mut out = direction.to_string().concat(" of ").concat(file_path).concat(":\n");
    let ghost head = out@;
    assert(dv.take(0) =~= Seq::<DepView>::empty());
    assert(out@ =~= head + dep_lines(dv.take(0)));
    for i in 0..deps.len()
        invariant
            dv == queries::dep_views(deps@),
            out@ == head + dep_lines(dv.take(i as int)),
    {
        proof {
            assert(dv.take(i + 1).drop_last() =~= dv.take(i as int));
            assert(dv.take(i + 1).last() == deps@[i as int]@);
        }
        let line = "  ".to_string().concat(deps[i].file_path.as_str()).concat(" (").concat(
            deps[i].edge_type.as_str(),
        ).concat(")\n");
        out.append(line.as_str());
        assert(out@ =~= head + dep_lines(dv.take(i + 1)));
    }
    assert(dv.take(dv.len() as int) =~= dv);
    out
}

/// Every dependency has a line, in their order, with its path and how it is one.
pub proof fn law_dep_lines(deps: Seq<DepView>)
    ensures
        dep_lines(deps) == deps.map_values(
            |d: DepView| "  "@ + d.file_path + " ("@ + d.edge_type + ")\n"@,
        ).flatten(),
{
    lists::lemma_parts(
        deps,
        |d: DepView| "  "@ + d.file_path + " ("@ + d.edge_type + ")\n"@,
        |s: Seq<DepView>| dep_lines(s),
    );
}

/// A search is answered by a line for each symbol that is found, and where none is, by saying so; a
/// question for dependencies is answered by a line for each, of importers where those are asked for
/// and of imports otherwise.
pub proof fn law_answers(
    v: IndexView,
    pattern: Seq<char>,
    limit: nat,
    path: Seq<char>,
    direction: Seq<char>,
)
    ensures
        ({
            let found = queries::found_symbols(v, pattern, limit, false);
            &&& found.len() > 0 ==> symbol_answer(v, pattern, limit) == query::result_lines(found)
            &&& found.len() == 0 ==> symbol_answer(v, pattern, limit) == "No symbols matching '"@
                + pattern + "'"@
        }),
        ({
            let deps = queries::deps_of(v, path, direction == "importers"@);
            &&& deps.len() > 0 ==> deps_answer(v, path, direction) == direction + " of "@ + path
                + ":\n"@ + dep_lines(deps)
            &&& deps.len() == 0 ==> deps_answer(v, path, direction) == "No "@ + direction
                + " found for '"@ + path + "'"@
        }),
        DEFAULT_SYMBOL_LIMIT == 10,
        DEFAULT_MAP_TOKENS == 1500,
{
}

}
