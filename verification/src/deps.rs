//! Dependency inspection: what a file imports, and what imports it.
use vstd::hash_set::StringHashSet;
use vstd::prelude::*;

use crate::db;
use crate::db::{DepEdge, Index, IndexView};
use crate::json;
use crate::json::{Json, JsonView};
use crate::lists;
use crate::queries;
use crate::text;
use crate::text::CharClass;

verus! {

// ---------------------------------------------------------------------------------------------
// Paths
// ---------------------------------------------------------------------------------------------

/// Whether a path begins at the root of the file system.
pub open spec fn is_absolute(path: Seq<char>) -> bool {
    ("/"@).is_prefix_of(path)
}

/// How many characters say where a path begins: one for a leading slash, and one for a leading `.`
/// that is a name of its own.
pub open spec fn head_len(path: Seq<char>) -> int {
    if path.len() > 0 && at_mark(path, 0) {
        1
    } else {
        0
    }
}

/// Whether what begins at a position is no name: a slash, or a `.` that is a name of its own.
pub open spec fn at_mark(s: Seq<char>, i: int) -> bool {
    s[i] == '/' || (s[i] == '.' && (i + 1 == s.len() || s[i + 1] == '/'))
}

/// The first position from `i` on that is not at a mark.
pub open spec fn skip_marks(s: Seq<char>, i: int) -> int
    decreases s.len() - i,
{
    if i < s.len() && at_mark(s, i) {
        skip_marks(s, i + 1)
    } else {
        i
    }
}

/// Where the name that begins at `i` ends.
pub open spec fn name_end(s: Seq<char>, i: int) -> int
    decreases s.len() - i,
{
    if i < s.len() && s[i] != '/' {
        name_end(s, i + 1)
    } else {
        i
    }
}

/// Marks and names end within the text.
pub proof fn lemma_ends(s: Seq<char>, i: int)
    requires
        0 <= i <= s.len(),
    ensures
        i <= skip_marks(s, i) <= s.len(),
        skip_marks(s, i) < s.len() ==> !at_mark(s, skip_marks(s, i)),
        i <= name_end(s, i) <= s.len(),
        i < s.len() && s[i] != '/' ==> i < name_end(s, i),
    decreases s.len() - i,
{
    if i < s.len() {
        lemma_ends(s, i + 1);
    }
}

/// The names along a path from a position on; empty names and `.` count for nothing.
pub open spec fn names_from(s: Seq<char>, i: int) -> Seq<Seq<char>>
    decreases s.len() - i,
    when 0 <= i <= s.len()
{
    let from = skip_marks(s, i);
    proof {
        lemma_ends(s, i);
        lemma_ends(s, from);
    }
    if from < s.len() {
        seq![s.subrange(from, name_end(s, from))] + names_from(s, name_end(s, from))
    } else {
        Seq::empty()
    }
}

/// The names along a path, behind its head.
pub open spec fn names(path: Seq<char>) -> Seq<Seq<char>> {
    names_from(path, head_len(path))
}

/// Where the name after the next `n` ones begins.
pub open spec fn behind(s: Seq<char>, i: int, n: nat) -> int
    decreases n,
{
    if n == 0 {
        skip_marks(s, i)
    } else {
        behind(s, name_end(s, skip_marks(s, i)), (n - 1) as nat)
    }
}

/// Where a text from `from` to `to` ends without the marks at its end.
pub open spec fn without_marks(s: Seq<char>, from: int, to: int) -> int
    decreases to - from,
{
    if from < to && (s[to - 1] == '/' || (s[to - 1] == '.' && (to - 1 == from || s[to - 2]
        == '/'))) {
        without_marks(s, from, to - 1)
    } else {
        to
    }
}

/// The rest of a path below a root, where the path is below it: what stands in the path between
/// the first name and the last one that the root does not have.
pub open spec fn below(path: Seq<char>, root: Seq<char>) -> Option<Seq<char>> {
    let head = head_len(path);
    if root.len() == 0 {
        Some(path.take(without_marks(path, head, path.len() as int)))
    } else if path.take(head) == root.take(head_len(root)) && names(root).is_prefix_of(
        names(path),
    ) {
        let from = behind(path, head, names(root).len());
        Some(path.subrange(from, without_marks(path, from, path.len() as int)))
    } else {
        None
    }
}

/// A file name as the index has it: with forward slashes, relative to the root, without a leading
/// `./`.
pub open spec fn normalized(root: Seq<char>, file: Seq<char>) -> Seq<char> {
    let slashed = text::replaced(file, '\\', '/');
    if is_absolute(slashed) && below(slashed, root) is Some {
        below(slashed, root)->0
    } else if ("./"@).is_prefix_of(slashed) {
        slashed.skip(2)
    } else {
        slashed
    }
}

/// Whether a position is at a mark.
fn is_mark(chars: &Vec<char>, i: usize) -> (r: bool)
    requires
        i < chars@.len(),
    ensures
        r == at_mark(chars@, i as int),
{
    chars[i] == '/' || (chars[i] == '.' && (i == chars.len() - 1 || chars[i + 1] == '/'))
}

/// How many characters say where a path begins.
fn head_of(chars: &Vec<char>) -> (r: usize)
    ensures
        r == head_len(chars@),
        r <= chars@.len(),
{
    if chars.len() > 0 && is_mark(chars, 0) {
        1
    } else {
        0
    }
}

/// The first position from `i` on that is not at a mark.
fn after_marks(chars: &Vec<char>, i: usize) -> (r: usize)
    requires
        i <= chars@.len(),
    ensures
        r == skip_marks(chars@, i as int),
        i <= r <= chars@.len(),
        r < chars@.len() ==> chars@[r as int] != '/',
{
    let mut at: usize = i;
    while at < chars.len() && is_mark(chars, at)
        invariant
            i <= at <= chars@.len(),
            skip_marks(chars@, i as int) == skip_marks(chars@, at as int),
        decreases chars@.len() - at,
    {
        at += 1;
    }
    at
}

/// Where the name that begins at `i` ends.
fn after_name(chars: &Vec<char>, i: usize) -> (r: usize)
    requires
        i <= chars@.len(),
    ensures
        r == name_end(chars@, i as int),
        i <= r <= chars@.len(),
        i < chars@.len() && chars@[i as int] != '/' ==> i < r,
{
    let mut at: usize = i;
    while at < chars.len() && chars[at] != '/'
        invariant
            i <= at <= chars@.len(),
            name_end(chars@, i as int) == name_end(chars@, at as int),
            i < chars@.len() && chars@[i as int] != '/' && at == i ==> chars@[at as int] != '/',
        decreases chars@.len() - at,
    {
        at += 1;
    }
    at
}

/// The names from a position on, by the first of them.
proof fn lemma_first_name(s: Seq<char>, i: int, at: int)
    requires
        0 <= i <= s.len(),
        at == skip_marks(s, i),
    ensures
        at < s.len() ==> names_from(s, i) == seq![s.subrange(at, name_end(s, at))] + names_from(
            s,
            name_end(s, at),
        ),
        at >= s.len() ==> names_from(s, i).len() == 0,
{
    lemma_ends(s, i);
    lemma_ends(s, at);
}

/// The names along a path from a position on.
fn list_names(chars: &Vec<char>, i: usize) -> (r: Vec<String>)
    requires
        i <= chars@.len(),
    ensures
        text::views(r@) == names_from(chars@, i as int),
{
    let mut out: Vec<String> = Vec::new();
    let mut at: usize = i;
    assert(text::views(out@) + names_from(chars@, at as int) =~= names_from(chars@, i as int));
    loop
        invariant
            i <= at <= chars@.len(),
            text::views(out@) + names_from(chars@, at as int) == names_from(chars@, i as int),
        ensures
            text::views(out@) == names_from(chars@, i as int),
        decreases chars@.len() - at,
    {
        let from = after_marks(chars, at);
        proof {
            lemma_first_name(chars@, at as int, from as int);
        }
        if from == chars.len() {
            assert(text::views(out@) + names_from(chars@, at as int) =~= text::views(out@));
            break;
        }
        let end = after_name(chars, from);
        let ghost before = text::views(out@);
        let name = text::slice(chars, from, end);
        let ghost v = name@;
        out.push(name);
        proof {
            assert(text::views(out@) =~= before.push(v));
            assert(before + names_from(chars@, at as int) =~= text::views(out@) + names_from(
                chars@,
                end as int,
            ));
        }
        at = end;
    }
    out
}

/// The rest of a path below a root, where the path is below it.
pub fn strip_root(path: &str, root: &str) -> (r: Option<String>)
    ensures
        text::opt_view(r) == below(path@, root@),
{
    let chars = text::chars_of(path);
    let above = text::chars_of(root);
    let head = head_of(&chars);
    let mut from: usize = 0;
    let mut body: usize = head;
    if above.len() > 0 {
        let top = head_of(&above);
        if head != top || (head == 1 && chars[0] != above[0]) {
            proof {
                assert(path@.take(head as int).len() == head);
                assert(root@.take(top as int).len() == top);
                if head == 1 && top == 1 {
                    assert(path@.take(1)[0] != root@.take(1)[0]);
                }
            }
            return None;
        }
        assert(path@.take(head as int) =~= root@.take(top as int));
        let p = list_names(&chars, head);
        let q = list_names(&above, top);
        let ghost pv = text::views(p@);
        let ghost qv = text::views(q@);
        if p.len() < q.len() {
            return None;
        }
        for i in 0..q.len()
            invariant
                pv == text::views(p@),
                qv == text::views(q@),
                pv == names(path@),
                qv == names(root@),
                root@.len() > 0,
                q@.len() <= p@.len(),
                forall|k: int| 0 <= k < i ==> pv[k] == qv[k],
        {
            if p[i] != q[i] {
                assert(pv[i as int] != qv[i as int]);
                return None;
            }
            assert(pv[i as int] == qv[i as int]);
        }
        assert(qv =~= pv.take(qv.len() as int));
        let mut at: usize = head;
        for i in 0..q.len()
            invariant
                chars@ == path@,
                at <= chars@.len(),
                behind(path@, head as int, q@.len()) == behind(
                    path@,
                    at as int,
                    (q@.len() - i) as nat,
                ),
        {
            at = after_name(&chars, after_marks(&chars, at));
        }
        from = after_marks(&chars, at);
        body = from;
    }
    let mut end: usize = chars.len();
    while end > body && (chars[end - 1] == '/' || (chars[end - 1] == '.' && (end - 1 == body
        || chars[end - 2] == '/')))
        invariant
            chars@ == path@,
            from <= body <= end <= chars@.len(),
            without_marks(path@, body as int, path@.len() as int) == without_marks(
                path@,
                body as int,
                end as int,
            ),
        decreases end,
    {
        end -= 1;
    }
    let rest = text::slice(&chars, from, end);
    assert(path@.subrange(0, end as int) =~= path@.take(end as int));
    Some(rest)
}

/// A file name as the index has it.
pub fn normalize_path(root: &str, file: &str) -> (r: String)
    ensures
        r@ == normalized(root@, file@),
{
    let slashed = text::replace_char(file, '\\', '/');
    if text::starts_with(slashed.as_str(), "/") {
        if let Some(rest) = strip_root(slashed.as_str(), root) {
            return rest;
        }
    }
    proof {
        reveal_strlit("./");
    }
    match text::strip_prefix(slashed.as_str(), "./") {
        Some(rest) => rest,
        None => slashed,
    }
}

/// The names that are left behind some of the names of a path.
proof fn lemma_behind(s: Seq<char>, i: int, n: nat)
    requires
        0 <= i <= s.len(),
        n <= names_from(s, i).len(),
    ensures
        i <= behind(s, i, n) <= s.len(),
        names_from(s, behind(s, i, n)) == names_from(s, i).skip(n as int),
    decreases n,
{
    let from = skip_marks(s, i);
    lemma_ends(s, i);
    lemma_ends(s, from);
    if n == 0 {
        if from < s.len() {
            assert(skip_marks(s, from) == from);
        } else {
            assert(skip_marks(s, from) == from);
        }
        assert(names_from(s, i).skip(0) =~= names_from(s, i));
    } else {
        lemma_behind(s, name_end(s, from), (n - 1) as nat);
        assert(names_from(s, i).skip(n as int) =~= names_from(s, name_end(s, from)).skip(n - 1));
    }
}

/// Marks and names of a path stay as they are where a slash and more follow.
proof fn lemma_longer(a: Seq<char>, s: Seq<char>, i: int)
    requires
        0 <= i <= a.len() < s.len(),
        a == s.take(a.len() as int),
        s[a.len() as int] == '/',
    ensures
        name_end(s, i) == name_end(a, i),
        skip_marks(a, i) < a.len() ==> skip_marks(s, i) == skip_marks(a, i),
        skip_marks(a, i) == a.len() ==> skip_marks(s, i) == skip_marks(s, a.len() as int + 1),
    decreases a.len() - i,
{
    assert(forall|k: int| 0 <= k < a.len() ==> a[k] == s[k]);
    if i < a.len() {
        lemma_longer(a, s, i + 1);
        lemma_ends(a, i + 1);
    }
}

/// The names of a path that a slash and more follow come first.
proof fn lemma_names_longer(a: Seq<char>, s: Seq<char>, i: int)
    requires
        0 <= i <= a.len() < s.len(),
        a == s.take(a.len() as int),
        s[a.len() as int] == '/',
    ensures
        names_from(s, i) == names_from(a, i) + names_from(s, a.len() as int + 1),
        behind(s, i, names_from(a, i).len()) == skip_marks(s, a.len() as int + 1),
    decreases a.len() - i,
{
    let from = skip_marks(a, i);
    lemma_ends(a, i);
    lemma_ends(a, from);
    lemma_ends(s, i);
    lemma_longer(a, s, i);
    if from < a.len() {
        lemma_longer(a, s, from);
        let end = name_end(a, from);
        lemma_names_longer(a, s, end);
        assert(s.subrange(from, end) =~= a.subrange(from, end));
        assert(names_from(s, i) =~= names_from(a, i) + names_from(s, a.len() as int + 1));
    } else {
        assert(names_from(s, i) =~= names_from(s, a.len() as int + 1));
        assert(names_from(a, i) + names_from(s, a.len() as int + 1) =~= names_from(s, a.len() as int + 1));
    }
}

/// Whether a path is relative and begins and ends with a name.
pub open spec fn is_plain(rel: Seq<char>) -> bool {
    &&& rel.len() > 0
    &&& !at_mark(rel, 0)
    &&& without_marks(rel, 0, rel.len() as int) == rel.len()
    &&& !rel.contains('\\')
}

/// A file is found however it is spelled: relative to the root, with a leading `./`, behind the
/// root, and with backslashes for slashes, it is one file of the index.
pub proof fn law_spellings_agree(root: Seq<char>, rel: Seq<char>)
    requires
        is_absolute(root),
        !root.contains('\\'),
        is_plain(rel),
    ensures
        normalized(root, rel) == rel,
        normalized(root, "./"@ + rel) == rel,
        normalized(root, root + "/"@ + rel) == rel,
        normalized(root, text::replaced(rel, '/', '\\')) == rel,
{
    reveal_strlit("./");
    reveal_strlit("/");
    assert(!is_absolute(rel)) by {
        if is_absolute(rel) {
            assert(rel[0] == ("/"@)[0]);
        }
    }
    assert(!("./"@).is_prefix_of(rel)) by {
        if ("./"@).is_prefix_of(rel) {
            assert(rel[0] == ("./"@)[0] && rel[1] == ("./"@)[1]);
        }
    }
    assert(forall|k: int| 0 <= k < rel.len() ==> rel[k] != '\\');
    assert(forall|k: int| 0 <= k < root.len() ==> root[k] != '\\');
    assert(text::replaced(rel, '\\', '/') =~= rel);
    let dotted = "./"@ + rel;
    assert(text::replaced(dotted, '\\', '/') =~= dotted);
    assert(!is_absolute(dotted)) by {
        if is_absolute(dotted) {
            assert(dotted[0] == ("/"@)[0]);
        }
    }
    assert(dotted.take(2) =~= "./"@);
    assert(dotted.skip(2) =~= rel);
    assert(text::replaced(text::replaced(rel, '/', '\\'), '\\', '/') =~= rel);
    let full = root + "/"@ + rel;
    assert(text::replaced(full, '\\', '/') =~= full);
    assert(root[0] == ("/"@)[0]);
    assert(full[0] == root[0]);
    assert(is_absolute(full)) by {
        assert("/"@ =~= full.take(1));
    }
    assert(root =~= full.take(root.len() as int));
    lemma_names_longer(root, full, 1);
    let from = root.len() as int + 1;
    assert(full[from] == rel[0]);
    assert(from + 1 < full.len() ==> full[from + 1] == rel[1]);
    assert(skip_marks(full, from) == from);
    assert(full.take(1) =~= root.take(1));
    assert(names(root) =~= names(full).take(names(root).len() as int));
    assert(full.skip(from) =~= rel);
    lemma_shifted(full, rel, from, rel.len() as int);
    assert(full.subrange(from, full.len() as int) =~= rel);
}

/// The marks at the end of a text are those at the end of what it ends with.
proof fn lemma_shifted(s: Seq<char>, rel: Seq<char>, from: int, to: int)
    requires
        0 <= from <= s.len(),
        rel == s.skip(from),
        0 <= to <= rel.len(),
    ensures
        without_marks(s, from, from + to) == from + without_marks(rel, 0, to),
    decreases to,
{
    if to > 0 {
        assert(rel[to - 1] == s[from + to - 1]);
        if to > 1 {
            assert(rel[to - 2] == s[from + to - 2]);
        }
        lemma_shifted(s, rel, from, to - 1);
    }
}

/// No file name of the index has a backslash.
pub proof fn law_no_backslash(root: Seq<char>, file: Seq<char>)
    ensures
        !normalized(root, file).contains('\\'),
{
    let slashed = text::replaced(file, '\\', '/');
    assert(forall|k: int| 0 <= k < slashed.len() ==> slashed[k] != '\\');
    let head = head_len(slashed);
    if is_absolute(slashed) && below(slashed, root) is Some {
        reveal_strlit("/");
        if root.len() == 0 {
            lemma_without_marks(slashed, head, slashed.len() as int);
        } else {
            let from = behind(slashed, head, names(root).len());
            lemma_behind(slashed, head, names(root).len());
            lemma_without_marks(slashed, from, slashed.len() as int);
        }
    } else if ("./"@).is_prefix_of(slashed) {
        reveal_strlit("./");
    }
    let r = normalized(root, file);
    assert forall|k: int| 0 <= k < r.len() implies r[k] != '\\' by {
    }
}

/// The marks at the end of a text are part of it.
proof fn lemma_without_marks(s: Seq<char>, from: int, to: int)
    requires
        from <= to,
    ensures
        from <= without_marks(s, from, to) <= to,
    decreases to - from,
{
    if from < to {
        lemma_without_marks(s, from, to - 1);
    }
}

// ---------------------------------------------------------------------------------------------
// The walk along edges
// ---------------------------------------------------------------------------------------------

/// A file that was reached, with the edge that led to it.
#[derive(Debug)]
pub struct DepEntry {
    pub file_path: String,
    pub edge_type: String,
    pub specifier: Option<String>,
    pub depth: usize,
}

/// What is said of a file that was reached.
#[verifier::ext_equal]
pub struct EntryView {
    pub dep: queries::DepView,
    pub depth: nat,
}

impl View for DepEntry {
    type V = EntryView;

    open spec fn view(&self) -> EntryView {
        EntryView {
            dep: queries::DepView {
                file_path: self.file_path@,
                edge_type: self.edge_type@,
                specifier: text::opt_view(self.specifier),
            },
            depth: self.depth as nat,
        }
    }
}

/// What is said of some files that were reached.
pub open spec fn entry_views(v: Seq<DepEntry>) -> Seq<EntryView> {
    v.map_values(|e: DepEntry| e@)
}

/// The entries for the edges of one file.
pub open spec fn entries_at(deps: Seq<queries::DepView>, depth: nat) -> Seq<EntryView> {
    deps.map_values(|d: queries::DepView| EntryView { dep: d, depth })
}

/// The entries for the edges of the files of a level.
pub open spec fn level_entries(
    v: IndexView,
    importers: bool,
    level: Seq<Seq<char>>,
    depth: nat,
) -> Seq<EntryView>
    decreases level.len(),
{
    if level.len() == 0 {
        Seq::empty()
    } else {
        level_entries(v, importers, level.drop_last(), depth) + entries_at(
            queries::deps_of(v, level.last(), importers),
            depth,
        )
    }
}

/// The files among some edges that were not seen before, each once.
pub open spec fn unseen(deps: Seq<queries::DepView>, seen: Set<Seq<char>>) -> Seq<Seq<char>>
    decreases deps.len(),
{
    if deps.len() == 0 {
        Seq::empty()
    } else {
        let before = unseen(deps.drop_last(), seen);
        let path = deps.last().file_path;
        if seen.contains(path) || before.contains(path) {
            before
        } else {
            before.push(path)
        }
    }
}

/// The files after the files of a level: those that their edges lead to and that were not seen
/// before, each once.
pub open spec fn next_level(
    v: IndexView,
    importers: bool,
    level: Seq<Seq<char>>,
    seen: Set<Seq<char>>,
) -> Seq<Seq<char>>
    decreases level.len(),
{
    if level.len() == 0 {
        Seq::empty()
    } else {
        let before = next_level(v, importers, level.drop_last(), seen);
        before + unseen(
            queries::deps_of(v, level.last(), importers),
            seen.union(before.to_set()),
        )
    }
}

/// The entries from a level on, up to a depth.
pub open spec fn entries_from(
    v: IndexView,
    importers: bool,
    level: Seq<Seq<char>>,
    seen: Set<Seq<char>>,
    depth: nat,
    max_depth: nat,
) -> Seq<EntryView>
    decreases max_depth - depth,
{
    if depth >= max_depth || level.len() == 0 {
        Seq::empty()
    } else {
        let next = next_level(v, importers, level, seen);
        level_entries(v, importers, level, depth + 1) + entries_from(
            v,
            importers,
            next,
            seen.union(next.to_set()),
            depth + 1,
            max_depth,
        )
    }
}

/// The entries of a walk from a file, level by level: each file is left once, at the depth at which
/// it was first reached, and each edge of it makes an entry.
pub open spec fn walk(v: IndexView, path: Seq<char>, importers: bool, max_depth: nat) -> Seq<
    EntryView,
> {
    entries_from(v, importers, seq![path], set![path], 0, max_depth)
}

/// Adds the entries and the unseen files of one file.
fn visit(
    index: &Index,
    current: &str,
    direction: &str,
    depth: usize,
    seen: &mut StringHashSet,
    next: &mut Vec<String>,
    out: &mut Vec<DepEntry>,
)
    requires
        index.wf(),
    ensures
        ({
            let deps = queries::deps_of(index@, current@, queries::asks_importers(direction@));
            let found = unseen(deps, old(seen)@);
            &&& entry_views(final(out)@) == entry_views(old(out)@) + entries_at(deps, depth as nat)
            &&& text::views(final(next)@) == text::views(old(next)@) + found
            &&& final(seen)@ == old(seen)@.union(found.to_set())
        }),
{
    let deps = queries::get_file_deps(index, current, direction);
    let ghost all = queries::dep_views(deps@);
    let ghost seen0 = seen@;
    let ghost next0 = text::views(next@);
    let ghost out0 = entry_views(out@);
    proof {
        assert(all.take(0) =~= Seq::<queries::DepView>::empty());
        assert(unseen(all.take(0), seen0).to_set() =~= Set::<Seq<char>>::empty());
        assert(seen@ =~= seen0.union(unseen(all.take(0), seen0).to_set()));
        assert(text::views(next@) =~= next0 + unseen(all.take(0), seen0));
        assert(entry_views(out@) =~= out0 + entries_at(all.take(0), depth as nat));
    }
    for i in 0..deps.len()
        invariant
            all == queries::dep_views(deps@),
            entry_views(out@) == out0 + entries_at(all.take(i as int), depth as nat),
            text::views(next@) == next0 + unseen(all.take(i as int), seen0),
            seen@ == seen0.union(unseen(all.take(i as int), seen0).to_set()),
    {
        let ghost before = entry_views(out@);
        let ghost found = unseen(all.take(i as int), seen0);
        let ghost queued = text::views(next@);
        proof {
            assert(all.take(i + 1).drop_last() =~= all.take(i as int));
            assert(all.take(i + 1).last() == deps@[i as int]@);
        }
        let dep: &DepEdge = &deps[i];
        let entry = DepEntry {
            file_path: dep.file_path.clone(),
            edge_type: dep.edge_type.clone(),
            specifier: text::copy_opt(&dep.specifier),
            depth,
        };
        let ghost shown = entry@;
        out.push(entry);
        proof {
            assert(shown =~= (EntryView { dep: dep@, depth: depth as nat }));
            assert(entry_views(out@) =~= before.push(shown));
            assert(entries_at(all.take(i + 1), depth as nat) =~= entries_at(
                all.take(i as int),
                depth as nat,
            ).push(shown));
        }
        let is_new = seen.insert(dep.file_path.clone());
        if is_new {
            next.push(dep.file_path.clone());
            proof {
                let path = dep@.file_path;
                assert(text::views(next@) =~= queued.push(path));
                assert(!found.contains(path)) by {
                    if found.contains(path) {
                        assert(found.to_set().contains(path));
                    }
                }
                assert forall|p: Seq<char>| found.push(path).contains(p) == (found.contains(p) || p
                    == path) by {
                    if found.contains(p) {
                        let k = choose|k: int| 0 <= k < found.len() && found[k] == p;
                        assert(found.push(path)[k] == p);
                    }
                    assert(found.push(path)[found.len() as int] == path);
                }
                assert(found.push(path).to_set() =~= found.to_set().insert(path));
                assert(seen@ =~= seen0.union(found.push(path).to_set()));
                assert(text::views(next@) =~= next0 + found.push(path));
            }
        } else {
            proof {
                let path = dep@.file_path;
                assert(seen0.contains(path) || found.contains(path)) by {
                    if found.to_set().contains(path) {
                        assert(found.contains(path));
                    }
                }
                assert(seen@ =~= seen0.union(found.to_set()));
            }
        }
    }
    assert(all.take(all.len() as int) =~= all);
}

/// The files that the edges of some files lead to, each once.
pub fn next_files(index: &Index, level: &Vec<String>, direction: &str) -> (r: Vec<String>)
    requires
        index.wf(),
    ensures
        text::views(r@) == next_level(
            index@,
            queries::asks_importers(direction@),
            text::views(level@),
            Set::empty(),
        ),
{
    let ghost v = index@;
    let ghost importers = queries::asks_importers(direction@);
    let ghost names = text::views(level@);
    let mut seen = StringHashSet::new();
    let mut next: Vec<String> = Vec::new();
    let mut out: Vec<DepEntry> = Vec::new();
    proof {
        assert(names.take(0) =~= Seq::<Seq<char>>::empty());
        assert(text::views(next@) =~= Seq::<Seq<char>>::empty());
        assert(seen@ =~= next_level(v, importers, names.take(0), Set::empty()).to_set());
    }
    for i in 0..level.len()
        invariant
            index.wf(),
            v == index@,
            importers == queries::asks_importers(direction@),
            names == text::views(level@),
            text::views(next@) == next_level(v, importers, names.take(i as int), Set::empty()),
            seen@ == next_level(v, importers, names.take(i as int), Set::empty()).to_set(),
    {
        let ghost before = next_level(v, importers, names.take(i as int), Set::empty());
        visit(index, level[i].as_str(), direction, 1, &mut seen, &mut next, &mut out);
        proof {
            let deps = queries::deps_of(v, names[i as int], importers);
            assert(Set::<Seq<char>>::empty().union(before.to_set()) =~= before.to_set());
            let found = unseen(deps, before.to_set());
            assert(names.take(i + 1).drop_last() =~= names.take(i as int));
            assert(names.take(i + 1).last() == names[i as int]);
            lemma_concat_to_set(before, found);
        }
    }
    assert(names.take(names.len() as int) =~= names);
    next
}

/// The members of two lists, one after the other.
proof fn lemma_concat_to_set(a: Seq<Seq<char>>, b: Seq<Seq<char>>)
    ensures
        (a + b).to_set() == a.to_set().union(b.to_set()),
{
    assert forall|p: Seq<char>| a.contains(p) implies (a + b).contains(p) by {
        let k = choose|k: int| 0 <= k < a.len() && a[k] == p;
        assert((a + b)[k] == p);
    }
    assert forall|p: Seq<char>| b.contains(p) implies (a + b).contains(p) by {
        let k = choose|k: int| 0 <= k < b.len() && b[k] == p;
        assert((a + b)[a.len() + k] == p);
    }
    assert((a + b).to_set() =~= a.to_set().union(b.to_set()));
}

/// Walks along the edges of a file up to a depth.
pub fn gather_deps(index: &Index, file_path: &str, direction: &str, max_depth: usize) -> (r: Vec<
    DepEntry,
>)
    requires
        index.wf(),
    ensures
        entry_views(r@) == walk(
            index@,
            file_path@,
            queries::asks_importers(direction@),
            max_depth as nat,
        ),
{
    let ghost v = index@;
    let ghost importers = queries::asks_importers(direction@);
    let ghost whole = walk(v, file_path@, importers, max_depth as nat);
    let mut out: Vec<DepEntry> = Vec::new();
    let mut seen = StringHashSet::new();
    seen.insert(file_path.to_string());
    let mut level: Vec<String> = Vec::new();
    level.push(file_path.to_string());
    let mut depth: usize = 0;
    proof {
        assert(text::views(level@) =~= seq![file_path@]);
        assert(seen@ =~= set![file_path@]);
        assert(entry_views(out@) =~= Seq::<EntryView>::empty());
        assert(whole =~= entry_views(out@) + entries_from(
            v,
            importers,
            text::views(level@),
            seen@,
            0,
            max_depth as nat,
        ));
    }
    while depth < max_depth && level.len() > 0
        invariant
            index.wf(),
            v == index@,
            importers == queries::asks_importers(direction@),
            depth <= max_depth,
            whole == entry_views(out@) + entries_from(
                v,
                importers,
                text::views(level@),
                seen@,
                depth as nat,
                max_depth as nat,
            ),
        decreases max_depth - depth,
    {
        let mut next: Vec<String> = Vec::new();
        let ghost names = text::views(level@);
        let ghost seen0 = seen@;
        let ghost out0 = entry_views(out@);
        proof {
            assert(names.take(0) =~= Seq::<Seq<char>>::empty());
            assert(text::views(next@) =~= Seq::<Seq<char>>::empty());
            assert(next_level(v, importers, names.take(0), seen0).to_set() =~= Set::<
                Seq<char>,
            >::empty());
            assert(seen@ =~= seen0.union(next_level(v, importers, names.take(0), seen0).to_set()));
            assert(out0 =~= out0 + level_entries(v, importers, names.take(0), (depth + 1) as nat));
        }
        for i in 0..level.len()
            invariant
                index.wf(),
                v == index@,
                importers == queries::asks_importers(direction@),
                depth < max_depth,
                names == text::views(level@),
                entry_views(out@) == out0 + level_entries(
                    v,
                    importers,
                    names.take(i as int),
                    (depth + 1) as nat,
                ),
                text::views(next@) == next_level(v, importers, names.take(i as int), seen0),
                seen@ == seen0.union(
                    next_level(v, importers, names.take(i as int), seen0).to_set(),
                ),
        {
            let ghost before = next_level(v, importers, names.take(i as int), seen0);
            let ghost outs = level_entries(
                v,
                importers,
                names.take(i as int),
                (depth + 1) as nat,
            );
            visit(index, level[i].as_str(), direction, depth + 1, &mut seen, &mut next, &mut out);
            proof {
                let deps = queries::deps_of(v, names[i as int], importers);
                let found = unseen(deps, seen0.union(before.to_set()));
                assert(names.take(i + 1).drop_last() =~= names.take(i as int));
                assert(names.take(i + 1).last() == names[i as int]);
                lemma_concat_to_set(before, found);
                assert(seen@ =~= seen0.union((before + found).to_set()));
                assert(out0 + (outs + entries_at(deps, (depth + 1) as nat)) =~= (out0 + outs)
                    + entries_at(deps, (depth + 1) as nat));
            }
        }
        proof {
            assert(names.take(names.len() as int) =~= names);
            let rest = entries_from(
                v,
                importers,
                text::views(next@),
                seen@,
                (depth + 1) as nat,
                max_depth as nat,
            );
            let here = level_entries(v, importers, names, (depth + 1) as nat);
            assert(out0 + (here + rest) =~= (out0 + here) + rest);
        }
        level = next;
        depth += 1;
    }
    assert(entry_views(out@) + Seq::<EntryView>::empty() =~= entry_views(out@));
    out
}

/// A walk keeps to its depth: each entry lies at least one edge and at most `max_depth` edges away.
pub proof fn law_walk_depth(v: IndexView, path: Seq<char>, importers: bool, max_depth: nat, k: int)
    requires
        0 <= k < walk(v, path, importers, max_depth).len(),
    ensures
        1 <= walk(v, path, importers, max_depth)[k].depth <= max_depth,
{
    lemma_depths(v, importers, seq![path], set![path], 0, max_depth);
}

/// The entries of a level lie at its depth.
proof fn lemma_level_depth(v: IndexView, importers: bool, level: Seq<Seq<char>>, depth: nat)
    ensures
        forall|k: int|
            0 <= k < level_entries(v, importers, level, depth).len() ==> (#[trigger] level_entries(
                v,
                importers,
                level,
                depth,
            )[k]).depth == depth,
    decreases level.len(),
{
    if level.len() > 0 {
        lemma_level_depth(v, importers, level.drop_last(), depth);
    }
}

/// The entries from a level on lie below it.
proof fn lemma_depths(
    v: IndexView,
    importers: bool,
    level: Seq<Seq<char>>,
    seen: Set<Seq<char>>,
    depth: nat,
    max_depth: nat,
)
    ensures
        forall|k: int|
            0 <= k < entries_from(v, importers, level, seen, depth, max_depth).len() ==> depth < (
            #[trigger] entries_from(v, importers, level, seen, depth, max_depth)[k]).depth
                <= max_depth,
    decreases max_depth - depth,
{
    if depth < max_depth && level.len() > 0 {
        let next = next_level(v, importers, level, seen);
        lemma_level_depth(v, importers, level, depth + 1);
        lemma_depths(v, importers, next, seen.union(next.to_set()), depth + 1, max_depth);
    }
}

/// A walk of depth 1 lists the direct dependencies, and a walk of depth 0 nothing.
pub proof fn law_walk_direct(v: IndexView, path: Seq<char>, importers: bool)
    ensures
        walk(v, path, importers, 0) == Seq::<EntryView>::empty(),
        walk(v, path, importers, 1) == entries_at(queries::deps_of(v, path, importers), 1),
{
    reveal_with_fuel(level_entries, 2);
    reveal_with_fuel(entries_from, 2);
    let level = seq![path];
    assert(level.drop_last() =~= Seq::<Seq<char>>::empty());
    assert(walk(v, path, importers, 1) =~= entries_at(queries::deps_of(v, path, importers), 1));
}

/// Files that are new to a walk are new, and each stands there once.
proof fn lemma_unseen(deps: Seq<queries::DepView>, seen: Set<Seq<char>>)
    ensures
        unseen(deps, seen).no_duplicates(),
        forall|p: Seq<char>| #[trigger] unseen(deps, seen).contains(p) ==> !seen.contains(p),
    decreases deps.len(),
{
    if deps.len() > 0 {
        lemma_unseen(deps.drop_last(), seen);
        let before = unseen(deps.drop_last(), seen);
        let after = unseen(deps, seen);
        assert forall|p: Seq<char>| after.contains(p) implies !seen.contains(p) by {
            let k = choose|k: int| 0 <= k < after.len() && after[k] == p;
            if k < before.len() {
                assert(before[k] == p);
                assert(before.contains(p));
            }
        }
        assert forall|a: int, b: int|
            0 <= a < after.len() && 0 <= b < after.len() && a != b implies after[a] != after[b] by {
            if a < before.len() {
                assert(before.contains(before[a]));
            }
            if b < before.len() {
                assert(before.contains(before[b]));
            }
        }
    }
}

/// No walk leaves a file twice: the files of the next level were not seen before, and each stands
/// there once.
pub proof fn law_files_left_once(
    v: IndexView,
    importers: bool,
    level: Seq<Seq<char>>,
    seen: Set<Seq<char>>,
)
    ensures
        next_level(v, importers, level, seen).no_duplicates(),
        forall|p: Seq<char>| #[trigger]
            next_level(v, importers, level, seen).contains(p) ==> !seen.contains(p),
    decreases level.len(),
{
    if level.len() > 0 {
        law_files_left_once(v, importers, level.drop_last(), seen);
        let before = next_level(v, importers, level.drop_last(), seen);
        let deps = queries::deps_of(v, level.last(), importers);
        let found = unseen(deps, seen.union(before.to_set()));
        lemma_unseen(deps, seen.union(before.to_set()));
        let after = before + found;
        assert forall|p: Seq<char>| after.contains(p) implies !seen.contains(p) by {
            let k = choose|k: int| 0 <= k < after.len() && after[k] == p;
            if k < before.len() {
                assert(before[k] == p);
                assert(before.contains(p));
            } else {
                assert(found[k - before.len()] == p);
                assert(found.contains(p));
                assert(!seen.union(before.to_set()).contains(p));
            }
        }
        assert forall|a: int, b: int| 0 <= a < b < after.len() implies after[a] != after[b] by {
            if b < before.len() {
                assert(before[a] != before[b]);
            } else if a >= before.len() {
                assert(found[a - before.len()] != found[b - before.len()]);
            } else {
                let p = found[b - before.len()];
                assert(found.contains(p));
                assert(!seen.union(before.to_set()).contains(p));
                assert(before.contains(before[a]));
                assert(before.to_set().contains(before[a]));
            }
        }
    }
}

/// Whether an edge of one file leads to another.
pub open spec fn leads_to(v: IndexView, importers: bool, from: Seq<char>, to: Seq<char>) -> bool {
    exists|k: int|
        0 <= k < queries::deps_of(v, from, importers).len() && (#[trigger] queries::deps_of(
            v,
            from,
            importers,
        )[k]).file_path == to
}

/// Whether some files lie along edges, each but the first behind the one before it.
pub open spec fn is_chain(v: IndexView, importers: bool, chain: Seq<Seq<char>>) -> bool {
    forall|i: int|
        0 <= i < chain.len() - 1 ==> leads_to(v, importers, #[trigger] chain[i], chain[i + 1])
}

/// The files that are new to a walk are those that an edge leads to and that were not seen before.
proof fn lemma_unseen_complete(deps: Seq<queries::DepView>, seen: Set<Seq<char>>, path: Seq<char>)
    ensures
        unseen(deps, seen).contains(path) == (!seen.contains(path) && exists|k: int|
            0 <= k < deps.len() && (#[trigger] deps[k]).file_path == path),
    decreases deps.len(),
{
    if deps.len() > 0 {
        let short = deps.drop_last();
        lemma_unseen_complete(short, seen, path);
        let before = unseen(short, seen);
        let after = unseen(deps, seen);
        if before.contains(path) {
            let k = choose|k: int| 0 <= k < before.len() && before[k] == path;
            assert(after[k] == path);
            let j = choose|j: int| 0 <= j < short.len() && (#[trigger] short[j]).file_path == path;
            assert(deps[j].file_path == path);
        }
        if after.contains(path) && !before.contains(path) {
            let k = choose|k: int| 0 <= k < after.len() && after[k] == path;
            if k < before.len() {
                assert(before[k] == path);
            }
            assert(deps[deps.len() - 1].file_path == path);
        }
        if exists|k: int| 0 <= k < deps.len() && (#[trigger] deps[k]).file_path == path {
            let k = choose|k: int| 0 <= k < deps.len() && (#[trigger] deps[k]).file_path == path;
            if k < short.len() {
                assert(short[k].file_path == path);
            } else if !seen.contains(path) && !before.contains(path) {
                assert(after[before.len() as int] == path);
            }
        }
    }
}

/// The files of the next level are exactly those that an edge of a file of the level leads to and
/// that were not seen before.
pub proof fn law_next_level_complete(
    v: IndexView,
    importers: bool,
    level: Seq<Seq<char>>,
    seen: Set<Seq<char>>,
    path: Seq<char>,
)
    ensures
        next_level(v, importers, level, seen).contains(path) == (!seen.contains(path) && exists|
            i: int,
        |
            0 <= i < level.len() && leads_to(v, importers, #[trigger] level[i], path)),
    decreases level.len(),
{
    if level.len() > 0 {
        let short = level.drop_last();
        law_next_level_complete(v, importers, short, seen, path);
        let before = next_level(v, importers, short, seen);
        let deps = queries::deps_of(v, level.last(), importers);
        let both = seen.union(before.to_set());
        let found = unseen(deps, both);
        lemma_unseen_complete(deps, both, path);
        let after = before + found;
        if before.contains(path) {
            let k = choose|k: int| 0 <= k < before.len() && before[k] == path;
            assert(after[k] == path);
            let i = choose|i: int|
                0 <= i < short.len() && leads_to(v, importers, #[trigger] short[i], path);
            assert(level[i] == short[i]);
        }
        if found.contains(path) {
            let k = choose|k: int| 0 <= k < found.len() && found[k] == path;
            assert(after[before.len() + k] == path);
            assert(leads_to(v, importers, level[level.len() - 1], path));
        }
        if after.contains(path) {
            let k = choose|k: int| 0 <= k < after.len() && after[k] == path;
            if k < before.len() {
                assert(before[k] == path);
            } else {
                assert(found[k - before.len()] == path);
            }
        }
        if exists|i: int| 0 <= i < level.len() && leads_to(v, importers, #[trigger] level[i], path) {
            let i = choose|i: int|
                0 <= i < level.len() && leads_to(v, importers, #[trigger] level[i], path);
            if i < short.len() {
                assert(short[i] == level[i]);
            }
        }
    }
}

/// Each edge of a file of a level makes an entry.
proof fn lemma_level_entry(
    v: IndexView,
    importers: bool,
    level: Seq<Seq<char>>,
    depth: nat,
    i: int,
    k: int,
)
    requires
        0 <= i < level.len(),
        0 <= k < queries::deps_of(v, level[i], importers).len(),
    ensures
        level_entries(v, importers, level, depth).contains(
            EntryView { dep: queries::deps_of(v, level[i], importers)[k], depth },
        ),
    decreases level.len(),
{
    let short = level.drop_last();
    let before = level_entries(v, importers, short, depth);
    let last = entries_at(queries::deps_of(v, level.last(), importers), depth);
    let e = EntryView { dep: queries::deps_of(v, level[i], importers)[k], depth };
    if i < short.len() {
        assert(short[i] == level[i]);
        lemma_level_entry(v, importers, short, depth, i, k);
        let p = choose|p: int| 0 <= p < before.len() && before[p] == e;
        assert((before + last)[p] == e);
    } else {
        assert((before + last)[before.len() + k] == e);
    }
}

/// The last of some files that stands in a set.
proof fn lemma_last_in(chain: Seq<Seq<char>>, set: Set<Seq<char>>, from: int, to: int) -> (j: int)
    requires
        0 <= from < to <= chain.len(),
        set.contains(chain[from]),
    ensures
        from <= j < to,
        set.contains(chain[j]),
        forall|i: int| j < i < to ==> !set.contains(#[trigger] chain[i]),
    decreases to - from,
{
    if set.contains(chain[to - 1]) {
        to - 1
    } else {
        lemma_last_in(chain, set, from, to - 1)
    }
}

/// What lies behind a file of a level along files that were not seen before is reached.
proof fn lemma_reaches(
    v: IndexView,
    importers: bool,
    level: Seq<Seq<char>>,
    seen: Set<Seq<char>>,
    depth: nat,
    max_depth: nat,
    chain: Seq<Seq<char>>,
) -> (e: EntryView)
    requires
        chain.len() >= 2,
        is_chain(v, importers, chain),
        level.contains(chain[0]),
        forall|i: int| 1 <= i < chain.len() - 1 ==> !seen.contains(#[trigger] chain[i]),
        depth + chain.len() - 1 <= max_depth,
    ensures
        entries_from(v, importers, level, seen, depth, max_depth).contains(e),
        e.dep.file_path == chain.last(),
        e.depth <= depth + chain.len() - 1,
    decreases chain.len(),
{
    let here = level_entries(v, importers, level, depth + 1);
    let next = next_level(v, importers, level, seen);
    let all = seen.union(next.to_set());
    let rest = entries_from(v, importers, next, all, depth + 1, max_depth);
    let a = choose|a: int| 0 <= a < level.len() && level[a] == chain[0];
    assert(leads_to(v, importers, chain[0], chain[0int + 1]));
    if chain.len() == 2 {
        let deps = queries::deps_of(v, level[a], importers);
        let k = choose|k: int| 0 <= k < deps.len() && (#[trigger] deps[k]).file_path == chain[1];
        lemma_level_entry(v, importers, level, depth + 1, a, k);
        let e = EntryView { dep: deps[k], depth: depth + 1 };
        let p = choose|p: int| 0 <= p < here.len() && here[p] == e;
        assert((here + rest)[p] == e);
        e
    } else {
        law_next_level_complete(v, importers, level, seen, chain[1]);
        assert(leads_to(v, importers, level[a], chain[1]));
        assert(next.contains(chain[1]));
        let j = lemma_last_in(chain, next.to_set(), 1, chain.len() - 1);
        let tail = chain.skip(j);
        assert forall|i: int| 0 <= i < tail.len() - 1 implies leads_to(
            v,
            importers,
            #[trigger] tail[i],
            tail[i + 1],
        ) by {
            assert(leads_to(v, importers, chain[i + j], chain[i + j + 1]));
        }
        assert forall|i: int| 1 <= i < tail.len() - 1 implies !all.contains(#[trigger] tail[i]) by {
            assert(!seen.contains(chain[i + j]));
            assert(!next.to_set().contains(chain[i + j]));
        }
        assert(next.contains(tail[0]));
        let e = lemma_reaches(v, importers, next, all, depth + 1, max_depth, tail);
        let p = choose|p: int| 0 <= p < rest.len() && rest[p] == e;
        assert((here + rest)[here.len() + p] == e);
        e
    }
}

/// A walk is complete: it has an entry for each file that lies at most `max_depth` edges away, at
/// no greater depth than that.
pub proof fn law_walk_reaches(
    v: IndexView,
    importers: bool,
    max_depth: nat,
    chain: Seq<Seq<char>>,
) -> (e: EntryView)
    requires
        2 <= chain.len() <= max_depth + 1,
        is_chain(v, importers, chain),
    ensures
        walk(v, chain[0], importers, max_depth).contains(e),
        e.dep.file_path == chain.last(),
        e.depth <= chain.len() - 1,
{
    let path = chain[0];
    let j = lemma_last_in(chain, set![path], 0, chain.len() - 1);
    let tail = chain.skip(j);
    assert forall|i: int| 0 <= i < tail.len() - 1 implies leads_to(
        v,
        importers,
        #[trigger] tail[i],
        tail[i + 1],
    ) by {
        assert(leads_to(v, importers, chain[i + j], chain[i + j + 1]));
    }
    assert forall|i: int| 1 <= i < tail.len() - 1 implies !set![path].contains(
        #[trigger] tail[i],
    ) by {
        assert(!set![path].contains(chain[i + j]));
    }
    assert(seq![path][0] == tail[0]);
    lemma_reaches(v, importers, seq![path], set![path], 0, max_depth, tail)
}

/// The entries of some files that were left, each with the depth of its entries.
pub open spec fn entries_of_left(v: IndexView, importers: bool, left: Seq<(Seq<char>, nat)>) -> Seq<
    EntryView,
> {
    left.map_values(
        |l: (Seq<char>, nat)|
            queries::deps_of(v, l.0, importers).map_values(
                |d: queries::DepView| EntryView { dep: d, depth: l.1 },
            ),
    ).flatten()
}

/// The entries of a level are those of its files.
proof fn lemma_level_left(v: IndexView, importers: bool, level: Seq<Seq<char>>, depth: nat)
    ensures
        level_entries(v, importers, level, depth) == entries_of_left(
            v,
            importers,
            level.map_values(|p: Seq<char>| (p, depth)),
        ),
{
    let part = |p: Seq<char>| entries_at(queries::deps_of(v, p, importers), depth);
    lists::lemma_parts(
        level,
        part,
        |s: Seq<Seq<char>>| level_entries(v, importers, s, depth),
    );
    let show = |l: (Seq<char>, nat)|
        queries::deps_of(v, l.0, importers).map_values(
            |d: queries::DepView| EntryView { dep: d, depth: l.1 },
        );
    let left = level.map_values(|p: Seq<char>| (p, depth));
    assert forall|i: int| 0 <= i < level.len() implies level.map_values(part)[i]
        == #[trigger] left.map_values(show)[i] by {
        assert(level.map_values(part)[i] =~= left.map_values(show)[i]);
    }
    assert(level.map_values(part) =~= left.map_values(show));
}

/// The files that are left from a level on.
proof fn lemma_left(
    v: IndexView,
    importers: bool,
    level: Seq<Seq<char>>,
    seen: Set<Seq<char>>,
    depth: nat,
    max_depth: nat,
) -> (left: Seq<(Seq<char>, nat)>)
    requires
        level.no_duplicates(),
        forall|i: int| 0 <= i < level.len() ==> seen.contains(#[trigger] level[i]),
    ensures
        entries_from(v, importers, level, seen, depth, max_depth) == entries_of_left(
            v,
            importers,
            left,
        ),
        left.map_values(|l: (Seq<char>, nat)| l.0).no_duplicates(),
        forall|k: int|
            0 <= k < left.len() ==> level.contains((#[trigger] left[k]).0) || !seen.contains(
                left[k].0,
            ),
        depth < max_depth ==> level.len() <= left.len(),
        depth < max_depth ==> forall|k: int|
            0 <= k < level.len() ==> #[trigger] left[k] == (level[k], depth + 1),
    decreases max_depth - depth,
{
    if depth >= max_depth || level.len() == 0 {
        let left = Seq::<(Seq<char>, nat)>::empty();
        assert(entries_of_left(v, importers, left) =~= Seq::<EntryView>::empty());
        left
    } else {
        let next = next_level(v, importers, level, seen);
        let all = seen.union(next.to_set());
        law_files_left_once(v, importers, level, seen);
        assert forall|i: int| 0 <= i < next.len() implies all.contains(#[trigger] next[i]) by {
            assert(next.contains(next[i]));
        }
        let rest = lemma_left(v, importers, next, all, depth + 1, max_depth);
        let here = level.map_values(|p: Seq<char>| (p, depth + 1));
        lemma_level_left(v, importers, level, depth + 1);
        let left = here + rest;
        let show = |l: (Seq<char>, nat)|
            queries::deps_of(v, l.0, importers).map_values(
                |d: queries::DepView| EntryView { dep: d, depth: l.1 },
            );
        vstd::seq_lib::lemma_flatten_concat(here.map_values(show), rest.map_values(show));
        assert(left.map_values(show) =~= here.map_values(show) + rest.map_values(show));
        let names = left.map_values(|l: (Seq<char>, nat)| l.0);
        let others = rest.map_values(|l: (Seq<char>, nat)| l.0);
        assert forall|k: int| 0 <= k < rest.len() implies !seen.contains((#[trigger] rest[k]).0) by {
            if next.contains(rest[k].0) {
                assert(!seen.contains(rest[k].0));
            } else {
                assert(!all.contains(rest[k].0));
            }
        }
        assert forall|a: int, b: int| 0 <= a < b < names.len() implies names[a] != names[b] by {
            if b < here.len() {
                assert(names[a] == level[a] && names[b] == level[b]);
            } else if a >= here.len() {
                assert(others[a - here.len()] == names[a]);
                assert(others[b - here.len()] == names[b]);
            } else {
                assert(seen.contains(level[a]));
                assert(!seen.contains(rest[b - here.len()].0));
            }
        }
        assert forall|k: int| 0 <= k < left.len() implies level.contains((#[trigger] left[k]).0)
            || !seen.contains(left[k].0) by {
            if k < here.len() {
                assert(level[k] == left[k].0);
            } else {
                assert(left[k] == rest[k - here.len()]);
            }
        }
        left
    }
}

/// A walk leaves each file once: its entries are those of all the edges of some files, each file
/// standing among them once, and the first being the one where it begins.
pub proof fn law_walk_leaves_files_once(
    v: IndexView,
    path: Seq<char>,
    importers: bool,
    max_depth: nat,
) -> (left: Seq<(Seq<char>, nat)>)
    ensures
        walk(v, path, importers, max_depth) == left.map_values(
            |l: (Seq<char>, nat)|
                queries::deps_of(v, l.0, importers).map_values(
                    |d: queries::DepView| EntryView { dep: d, depth: l.1 },
                ),
        ).flatten(),
        left.map_values(|l: (Seq<char>, nat)| l.0).no_duplicates(),
        max_depth > 0 ==> left.len() > 0 && left[0] == (path, 1nat),
{
    let left = lemma_left(v, importers, seq![path], set![path], 0, max_depth);
    if max_depth > 0 {
        assert(left[0] == (seq![path][0], 1nat));
    }
    left
}

/// The entries of a level stand behind its files.
proof fn lemma_level_sound(
    v: IndexView,
    importers: bool,
    level: Seq<Seq<char>>,
    depth: nat,
    e: EntryView,
) -> (i: int)
    requires
        level_entries(v, importers, level, depth).contains(e),
    ensures
        0 <= i < level.len(),
        queries::deps_of(v, level[i], importers).contains(e.dep),
        e.depth == depth,
    decreases level.len(),
{
    let short = level.drop_last();
    let before = level_entries(v, importers, short, depth);
    let deps = queries::deps_of(v, level.last(), importers);
    let last = entries_at(deps, depth);
    let p = choose|p: int| 0 <= p < (before + last).len() && (before + last)[p] == e;
    if p < before.len() {
        assert(before[p] == e);
        lemma_level_sound(v, importers, short, depth, e)
    } else {
        assert(last[p - before.len()] == e);
        assert(deps[p - before.len()] == e.dep);
        level.len() - 1
    }
}

/// The entries from a level on stand at the ends of edges.
proof fn lemma_sound(
    v: IndexView,
    importers: bool,
    level: Seq<Seq<char>>,
    seen: Set<Seq<char>>,
    depth: nat,
    max_depth: nat,
    e: EntryView,
) -> (chain: Seq<Seq<char>>)
    requires
        entries_from(v, importers, level, seen, depth, max_depth).contains(e),
    ensures
        chain.len() == e.depth - depth + 1,
        chain.len() >= 2,
        level.contains(chain[0]),
        chain.last() == e.dep.file_path,
        is_chain(v, importers, chain),
        queries::deps_of(v, chain[chain.len() - 2], importers).contains(e.dep),
    decreases max_depth - depth,
{
    let here = level_entries(v, importers, level, depth + 1);
    let next = next_level(v, importers, level, seen);
    let all = seen.union(next.to_set());
    let rest = entries_from(v, importers, next, all, depth + 1, max_depth);
    let p = choose|p: int| 0 <= p < (here + rest).len() && (here + rest)[p] == e;
    if p < here.len() {
        assert(here[p] == e);
        let i = lemma_level_sound(v, importers, level, depth + 1, e);
        let chain = seq![level[i], e.dep.file_path];
        let deps = queries::deps_of(v, level[i], importers);
        let k = choose|k: int| 0 <= k < deps.len() && deps[k] == e.dep;
        assert(deps[k].file_path == e.dep.file_path);
        assert(leads_to(v, importers, level[i], e.dep.file_path));
        chain
    } else {
        assert(rest[p - here.len()] == e);
        let tail = lemma_sound(v, importers, next, all, depth + 1, max_depth, e);
        law_next_level_complete(v, importers, level, seen, tail[0]);
        let i = choose|i: int|
            0 <= i < level.len() && leads_to(v, importers, #[trigger] level[i], tail[0]);
        let chain = seq![level[i]] + tail;
        assert forall|j: int| 0 <= j < chain.len() - 1 implies leads_to(
            v,
            importers,
            #[trigger] chain[j],
            chain[j + 1],
        ) by {
            if j > 0 {
                assert(leads_to(v, importers, tail[j - 1], tail[j - 1 + 1]));
            }
        }
        assert(chain[chain.len() - 2] == tail[tail.len() - 2]);
        chain
    }
}

/// A walk is sound: each entry is an edge behind as many edges as its depth says, less one.
pub proof fn law_walk_sound(
    v: IndexView,
    path: Seq<char>,
    importers: bool,
    max_depth: nat,
    e: EntryView,
) -> (chain: Seq<Seq<char>>)
    requires
        walk(v, path, importers, max_depth).contains(e),
    ensures
        chain.len() == e.depth + 1,
        chain.len() >= 2,
        chain[0] == path,
        chain.last() == e.dep.file_path,
        is_chain(v, importers, chain),
        queries::deps_of(v, chain[chain.len() - 2], importers).contains(e.dep),
{
    lemma_sound(v, importers, seq![path], set![path], 0, max_depth, e)
}

/// A deeper walk begins with the shorter one.
pub proof fn law_deeper_walk(v: IndexView, path: Seq<char>, importers: bool, max_depth: nat)
    ensures
        walk(v, path, importers, max_depth).is_prefix_of(walk(v, path, importers, max_depth + 1)),
{
    lemma_deeper(v, importers, seq![path], set![path], 0, max_depth);
}

/// The entries up to a depth come first among those up to a greater one.
proof fn lemma_deeper(
    v: IndexView,
    importers: bool,
    level: Seq<Seq<char>>,
    seen: Set<Seq<char>>,
    depth: nat,
    max_depth: nat,
)
    ensures
        entries_from(v, importers, level, seen, depth, max_depth).is_prefix_of(
            entries_from(v, importers, level, seen, depth, max_depth + 1),
        ),
    decreases max_depth - depth,
{
    let a = entries_from(v, importers, level, seen, depth, max_depth);
    let b = entries_from(v, importers, level, seen, depth, max_depth + 1);
    if depth < max_depth && level.len() > 0 {
        let next = next_level(v, importers, level, seen);
        lemma_deeper(v, importers, next, seen.union(next.to_set()), depth + 1, max_depth);
    }
    assert(a =~= b.take(a.len() as int));
}

// ---------------------------------------------------------------------------------------------
// The report
// ---------------------------------------------------------------------------------------------

/// Why there is no report.
#[derive(Debug)]
pub enum DepsError {
    /// The index does not hold the file.
    FileNotFound { file: String },
}

impl DepsError {
    /// The text of the error.
    pub open spec fn message_text(&self) -> Seq<char> {
        match self {
            DepsError::FileNotFound { file } => "File not found in index: "@ + file@
                + ". Run `codemap index` first."@,
        }
    }

    /// The error in words.
    pub fn message(&self) -> (r: String)
        ensures
            r@ == self.message_text(),
    {
        match self {
            DepsError::FileNotFound { file } =>
                "File not found in index: ".to_string().concat(file.as_str()).concat(
                    ". Run `codemap index` first.",
                ),
        }
    }
}

/// The number of importers that are shown where not all are asked for.
pub const MAX_IMPORTERS: usize = 5;

/// The depth before an entry, where it is more than 1.
pub open spec fn depth_prefix(depth: nat) -> Seq<char> {
    if depth > 1 {
        "(depth "@ + text::decimal(depth) + ") "@
    } else {
        Seq::empty()
    }
}

/// The lines of the imports.
pub open spec fn import_lines(entries: Seq<EntryView>) -> Seq<char>
    decreases entries.len(),
{
    if entries.len() == 0 {
        Seq::empty()
    } else {
        let e = entries.last();
        import_lines(entries.drop_last()) + "  "@ + depth_prefix(e.depth) + e.dep.file_path
            + "  ["@ + e.dep.edge_type + "]\n"@
    }
}

/// The lines of the importers.
pub open spec fn importer_lines(entries: Seq<EntryView>) -> Seq<char>
    decreases entries.len(),
{
    if entries.len() == 0 {
        Seq::empty()
    } else {
        let e = entries.last();
        importer_lines(entries.drop_last()) + "  "@ + depth_prefix(e.depth) + e.dep.file_path
            + "\n"@
    }
}

/// How many of some entries are shown.
pub open spec fn shown_count(total: nat, all: bool, max_show: nat) -> nat {
    if all || total <= max_show {
        total
    } else {
        max_show
    }
}

/// A list of which only a part is shown, with a hint at the rest.
pub open spec fn truncated_list(entries: Seq<EntryView>, all: bool, max_show: nat) -> Seq<char> {
    let shown = importer_lines(
        entries.take(shown_count(entries.len(), all, max_show) as int),
    );
    if !all && entries.len() > max_show {
        shown + "  ... and "@ + text::decimal((entries.len() - max_show) as nat)
            + " more (use --all to show all)\n"@
    } else {
        shown
    }
}

/// The part of the report on the imports of a file.
pub open spec fn import_part(imports: Seq<EntryView>) -> Seq<char> {
    if imports.len() > 0 {
        "\nImports ("@ + text::decimal(imports.len()) + "):\n"@ + import_lines(imports)
    } else {
        Seq::empty()
    }
}

/// The part of the report on the importers of a file.
pub open spec fn importer_part(importers: Seq<EntryView>, all: bool) -> Seq<char> {
    if importers.len() > 0 {
        "\nImported by ("@ + text::decimal(importers.len()) + "):\n"@ + truncated_list(
            importers,
            all,
            MAX_IMPORTERS as nat,
        )
    } else {
        Seq::empty()
    }
}

/// The report on a file as text.
pub open spec fn text_report(
    file: Seq<char>,
    imports: Seq<EntryView>,
    importers: Seq<EntryView>,
    all: bool,
) -> Seq<char> {
    file + "\n"@ + import_part(imports) + importer_part(importers, all) + (if imports.len() == 0
        && importers.len() == 0 {
        "\nNo dependencies found.\n"@
    } else {
        Seq::empty()
    })
}

/// An entry as a JSON object.
pub open spec fn entry_json(e: EntryView) -> JsonView {
    JsonView::Object(
        seq![
            ("file"@, JsonView::Text(e.dep.file_path)),
            ("edge_type"@, JsonView::Text(e.dep.edge_type)),
            ("specifier"@, json::opt_text_view(e.dep.specifier)),
            ("depth"@, json::whole_view(e.depth as u64)),
        ],
    )
}

/// Entries as JSON objects.
pub open spec fn entries_json(entries: Seq<EntryView>) -> Seq<JsonView> {
    entries.map_values(|e: EntryView| entry_json(e))
}

/// The report on a file as a JSON object.
pub open spec fn json_report(
    file: Seq<char>,
    imports: Seq<EntryView>,
    importers: Seq<EntryView>,
    all: bool,
) -> JsonView {
    JsonView::Object(
        seq![
            ("file"@, JsonView::Text(file)),
            ("imports"@, JsonView::Array(entries_json(imports))),
            (
                "importers"@,
                JsonView::Array(
                    entries_json(
                        importers.take(
                            shown_count(importers.len(), all, MAX_IMPORTERS as nat) as int,
                        ),
                    ),
                ),
            ),
            ("total_importers"@, json::whole_view(importers.len() as u64)),
        ],
    )
}

/// The depth before an entry, where it is more than 1.
pub fn format_depth_prefix(depth: usize) -> (r: String)
    ensures
        r@ == depth_prefix(depth as nat),
{
    if depth > 1 {
        "(depth ".to_string().concat(text::decimal_of(depth as u64).as_str()).concat(") ")
    } else {
        String::new()
    }
}

/// Appends the lines of the imports.
fn append_imports(out: &mut String, entries: &Vec<DepEntry>)
    ensures
        final(out)@ == old(out)@ + import_lines(entry_views(entries@)),
{
    let ghost start = out@;
    let ghost all = entry_views(entries@);
    assert(all.take(0) =~= Seq::<EntryView>::empty());
    assert(out@ =~= start + import_lines(all.take(0)));
    for i in 0..entries.len()
        invariant
            all == entry_views(entries@),
            out@ == start + import_lines(all.take(i as int)),
    {
        let e = &entries[i];
        let prefix = format_depth_prefix(e.depth);
        proof {
            assert(all.take(i + 1).drop_last() =~= all.take(i as int));
            assert(all.take(i + 1).last() == e@);
        }
        out.append("  ");
        out.append(prefix.as_str());
        out.append(e.file_path.as_str());
        out.append("  [");
        out.append(e.edge_type.as_str());
        out.append("]\n");
        assert(out@ =~= start + import_lines(all.take(i + 1)));
    }
    assert(all.take(all.len() as int) =~= all);
}

/// Appends a list of which only a part is shown, with a hint at the rest.
pub fn append_truncated_list(
    out: &mut String,
    entries: &Vec<DepEntry>,
    all: bool,
    max_show: usize,
)
    ensures
        final(out)@ == old(out)@ + truncated_list(entry_views(entries@), all, max_show as nat),
{
    let ghost start = out@;
    let ghost items = entry_views(entries@);
    let total: usize = entries.len();
    let show: usize = if all || total <= max_show {
        total
    } else {
        max_show
    };
    assert(items.take(0) =~= Seq::<EntryView>::empty());
    assert(out@ =~= start + importer_lines(items.take(0)));
    for i in 0..show
        invariant
            show <= entries@.len(),
            items == entry_views(entries@),
            out@ == start + importer_lines(items.take(i as int)),
    {
        let e = &entries[i];
        let prefix = format_depth_prefix(e.depth);
        proof {
            assert(items.take(i + 1).drop_last() =~= items.take(i as int));
            assert(items.take(i + 1).last() == e@);
        }
        out.append("  ");
        out.append(prefix.as_str());
        out.append(e.file_path.as_str());
        out.append("\n");
        assert(out@ =~= start + importer_lines(items.take(i + 1)));
    }
    if !all && total > max_show {
        out.append("  ... and ");
        out.append(text::decimal_of((total - max_show) as u64).as_str());
        out.append(" more (use --all to show all)\n");
    }
    assert(out@ =~= start + truncated_list(items, all, max_show as nat));
}

/// The report on a file as text.
pub fn render_text(
    file: &str,
    imports: &Vec<DepEntry>,
    importers: &Vec<DepEntry>,
    all: bool,
) -> (r: String)
    ensures
        r@ == text_report(file@, entry_views(imports@), entry_views(importers@), all),
{
    let ghost iv = entry_views(imports@);
    let ghost ov = entry_views(importers@);
    let mut out = file.to_string();
    out.append("\n");
    let ghost head = out@;
    if imports.len() > 0 {
        out.append("\nImports (");
        out.append(text::decimal_of(imports.len() as u64).as_str());
        out.append("):\n");
        append_imports(&mut out, imports);
    }
    assert(out@ =~= head + import_part(iv));
    let ghost middle = out@;
    if importers.len() > 0 {
        out.append("\nImported by (");
        out.append(text::decimal_of(importers.len() as u64).as_str());
        out.append("):\n");
        append_truncated_list(&mut out, importers, all, MAX_IMPORTERS);
    }
    assert(out@ =~= middle + importer_part(ov, all));
    if imports.len() == 0 && importers.len() == 0 {
        out.append("\nNo dependencies found.\n");
    }
    assert(out@ =~= text_report(file@, iv, ov, all));
    out
}

/// An entry as a JSON object.
pub fn dep_to_json(entry: &DepEntry) -> (r: Json)
    ensures
        r.tree() == entry_json(entry@),
{
    let object = json::add_member(
        json::empty_object(),
        "file",
        json::text_value(entry.file_path.as_str()),
    );
    let object = json::add_member(
        object,
        "edge_type",
        json::text_value(entry.edge_type.as_str()),
    );
    let object = json::add_member(object, "specifier", json::opt_text_value(&entry.specifier));
    let object = json::add_member(object, "depth", json::whole_value(entry.depth as u64));
    assert(object.tree()->Object_0 =~= entry_json(entry@)->Object_0);
    object
}

/// The first `n` entries as JSON objects.
fn entries_to_json(entries: &Vec<DepEntry>, n: usize) -> (r: Json)
    requires
        n <= entries@.len(),
    ensures
        r.tree() == JsonView::Array(entries_json(entry_views(entries@).take(n as int))),
{
    let ghost all = entry_views(entries@);
    let mut out: Vec<Json> = Vec::new();
    for i in 0..n
        invariant
            n <= entries@.len(),
            all == entry_views(entries@),
            json::trees(out@) == entries_json(all.take(i as int)),
    {
        json::push_value(&mut out, dep_to_json(&entries[i]));
        assert(entries_json(all.take(i + 1)) =~= entries_json(all.take(i as int)).push(
            entry_json(entries@[i as int]@),
        ));
    }
    json::array_value(out)
}

/// The report on a file as a JSON object.
pub fn render_json(
    file: &str,
    imports: &Vec<DepEntry>,
    importers: &Vec<DepEntry>,
    all: bool,
) -> (r: Json)
    ensures
        r.tree() == json_report(file@, entry_views(imports@), entry_views(importers@), all),
{
    let total: usize = importers.len();
    let show: usize = if all || total <= MAX_IMPORTERS {
        total
    } else {
        MAX_IMPORTERS
    };
    assert(entry_views(imports@).take(imports@.len() as int) =~= entry_views(imports@));
    let object = json::add_member(json::empty_object(), "file", json::text_value(file));
    let object = json::add_member(object, "imports", entries_to_json(imports, imports.len()));
    let object = json::add_member(object, "importers", entries_to_json(importers, show));
    let object = json::add_member(object, "total_importers", json::whole_value(total as u64));
    assert(object.tree()->Object_0 =~= json_report(
        file@,
        entry_views(imports@),
        entry_views(importers@),
        all,
    )->Object_0);
    object
}

/// The entries of a walk in one direction, if it is among those asked for.
pub open spec fn asked_walk(
    v: IndexView,
    path: Seq<char>,
    direction: Seq<char>,
    importers: bool,
    depth: nat,
) -> Seq<EntryView> {
    let other = if importers {
        "imports"@
    } else {
        "importers"@
    };
    if direction == other {
        Seq::empty()
    } else {
        walk(v, path, importers, depth)
    }
}

/// The report on a file, as text or as JSON.
pub open spec fn report(
    v: IndexView,
    path: Seq<char>,
    direction: Seq<char>,
    depth: nat,
    all: bool,
    as_json: bool,
) -> Seq<char> {
    let imports = asked_walk(v, path, direction, false, depth);
    let importers = asked_walk(v, path, direction, true, depth);
    if as_json {
        json::pretty(json_report(path, imports, importers, all)) + "\n"@
    } else {
        text_report(path, imports, importers, all)
    }
}

/// The report on the dependencies of a file: its imports, its importers, or both.
pub fn run_deps(
    index: &Index,
    root: &str,
    file: &str,
    direction: &str,
    depth: usize,
    all: bool,
    as_json: bool,
) -> (r: Result<String, DepsError>)
    requires
        index.wf(),
    ensures
        ({
            let path = normalized(root@, file@);
            if db::has_path(index@.files, path) {
                r matches Ok(out) && out@ == report(
                    index@,
                    path,
                    direction@,
                    depth as nat,
                    all,
                    as_json,
                )
            } else {
                r matches Err(DepsError::FileNotFound { file: f }) && f@ == file@
            }
        }),
{
    let rel_path = normalize_path(root, file);
    if db::get_file_id(index, rel_path.as_str()).is_none() {
        return Err(DepsError::FileNotFound { file: file.to_string() });
    }
    proof {
        reveal_strlit("imports");
        reveal_strlit("importers");
        assert("imports"@.len() != "importers"@.len());
    }
    let no_imports = text::same(direction, "importers");
    let no_importers = text::same(direction, "imports");
    let imports: Vec<DepEntry> = if no_imports {
        Vec::new()
    } else {
        gather_deps(index, rel_path.as_str(), "imports", depth)
    };
    let importers: Vec<DepEntry> = if no_importers {
        Vec::new()
    } else {
        gather_deps(index, rel_path.as_str(), "importers", depth)
    };
    proof {
        if no_imports {
            assert(entry_views(imports@) =~= Seq::<EntryView>::empty());
        }
        if no_importers {
            assert(entry_views(importers@) =~= Seq::<EntryView>::empty());
        }
    }
    if as_json {
        let object = render_json(rel_path.as_str(), &imports, &importers, all);
        Ok(json::to_pretty(&object).concat("\n"))
    } else {
        Ok(render_text(rel_path.as_str(), &imports, &importers, all))
    }
}

// ---------------------------------------------------------------------------------------------
// What a report says
// ---------------------------------------------------------------------------------------------

/// Each entry of the imports has a line: its depth where it is more than 1, the file and the type
/// of the edge.
pub proof fn law_import_lines(entries: Seq<EntryView>)
    ensures
        import_lines(entries) == entries.map_values(
            |e: EntryView|
                "  "@ + depth_prefix(e.depth) + e.dep.file_path + "  ["@ + e.dep.edge_type + "]\n"@,
        ).flatten(),
{
    let line = |e: EntryView|
        "  "@ + depth_prefix(e.depth) + e.dep.file_path + "  ["@ + e.dep.edge_type + "]\n"@;
    let whole = |s: Seq<EntryView>| import_lines(s);
    assert forall|s: Seq<EntryView>| #[trigger] whole(s) == (if s.len() == 0 {
        Seq::empty()
    } else {
        whole(s.drop_last()) + line(s.last())
    }) by {
        if s.len() > 0 {
            let e = s.last();
            assert(import_lines(s) =~= import_lines(s.drop_last()) + ("  "@ + depth_prefix(e.depth)
                + e.dep.file_path + "  ["@ + e.dep.edge_type + "]\n"@));
        }
    }
    lists::lemma_parts(entries, line, whole);
}

/// Each entry of the importers has a line: its depth where it is more than 1, and the file.
pub proof fn law_importer_lines(entries: Seq<EntryView>)
    ensures
        importer_lines(entries) == entries.map_values(
            |e: EntryView| "  "@ + depth_prefix(e.depth) + e.dep.file_path + "\n"@,
        ).flatten(),
{
    let line = |e: EntryView| "  "@ + depth_prefix(e.depth) + e.dep.file_path + "\n"@;
    let whole = |s: Seq<EntryView>| importer_lines(s);
    assert forall|s: Seq<EntryView>| #[trigger] whole(s) == (if s.len() == 0 {
        Seq::empty()
    } else {
        whole(s.drop_last()) + line(s.last())
    }) by {
        if s.len() > 0 {
            let e = s.last();
            assert(importer_lines(s) =~= importer_lines(s.drop_last()) + ("  "@ + depth_prefix(
                e.depth,
            ) + e.dep.file_path + "\n"@));
        }
    }
    lists::lemma_parts(entries, line, whole);
}

/// All importers are shown where all are asked for or there are at most five; else the first five
/// are, and how many more there are is told.
pub proof fn law_importers_shown(entries: Seq<EntryView>, all: bool)
    ensures
        all || entries.len() <= 5 ==> truncated_list(entries, all, MAX_IMPORTERS as nat)
            == importer_lines(entries),
        !all && entries.len() > 5 ==> truncated_list(entries, all, MAX_IMPORTERS as nat)
            == importer_lines(entries.take(5)) + "  ... and "@ + text::decimal(
            (entries.len() - 5) as nat,
        ) + " more (use --all to show all)\n"@,
{
    assert(entries.take(entries.len() as int) =~= entries);
}

/// A report in words shows the imports and the importers that were found, with their numbers; a
/// direction shows only its own, and any other word both.
pub proof fn law_report_shows_both(
    v: IndexView,
    path: Seq<char>,
    direction: Seq<char>,
    depth: nat,
    all: bool,
)
    ensures
        ({
            let imports = if direction == "importers"@ {
                Seq::empty()
            } else {
                walk(v, path, false, depth)
            };
            let importers = if direction == "imports"@ {
                Seq::empty()
            } else {
                walk(v, path, true, depth)
            };
            let first = if imports.len() > 0 {
                "\nImports ("@ + text::decimal(imports.len()) + "):\n"@ + import_lines(imports)
            } else {
                Seq::empty()
            };
            let second = if importers.len() > 0 {
                "\nImported by ("@ + text::decimal(importers.len()) + "):\n"@ + truncated_list(
                    importers,
                    all,
                    5,
                )
            } else {
                Seq::empty()
            };
            report(v, path, direction, depth, all, false) == path + "\n"@ + first + second + (
            if imports.len() == 0 && importers.len() == 0 {
                "\nNo dependencies found.\n"@
            } else {
                Seq::empty()
            })
        }),
{
}

/// A report in JSON lists each import, and the importers, all of them or at most five, each with
/// its file, type, specifier and depth, and tells how many importers there are.
pub proof fn law_report_json(
    file: Seq<char>,
    imports: Seq<EntryView>,
    importers: Seq<EntryView>,
    all: bool,
)
    ensures
        ({
            let shown = |e: EntryView|
                JsonView::Object(
                    seq![
                        ("file"@, JsonView::Text(e.dep.file_path)),
                        ("edge_type"@, JsonView::Text(e.dep.edge_type)),
                        (
                            "specifier"@,
                            match e.dep.specifier {
                                Some(s) => JsonView::Text(s),
                                None => JsonView::Null,
                            },
                        ),
                        ("depth"@, json::whole_view(e.depth as u64)),
                    ],
                );
            json_report(file, imports, importers, all) == JsonView::Object(
                seq![
                    ("file"@, JsonView::Text(file)),
                    ("imports"@, JsonView::Array(imports.map_values(shown))),
                    (
                        "importers"@,
                        JsonView::Array(
                            if all || importers.len() <= 5 {
                                importers.map_values(shown)
                            } else {
                                importers.take(5).map_values(shown)
                            },
                        ),
                    ),
                    ("total_importers"@, json::whole_view(importers.len() as u64)),
                ],
            )
        }),
{
    assert(importers.take(importers.len() as int) =~= importers);
    let shown = |e: EntryView|
        JsonView::Object(
            seq![
                ("file"@, JsonView::Text(e.dep.file_path)),
                ("edge_type"@, JsonView::Text(e.dep.edge_type)),
                (
                    "specifier"@,
                    match e.dep.specifier {
                        Some(s) => JsonView::Text(s),
                        None => JsonView::Null,
                    },
                ),
                ("depth"@, json::whole_view(e.depth as u64)),
            ],
        );
    assert forall|e: EntryView| #[trigger] entry_json(e) == shown(e) by {
        assert(entry_json(e)->Object_0 =~= shown(e)->Object_0);
    }
    assert forall|s: Seq<EntryView>| #[trigger] entries_json(s) == s.map_values(shown) by {
        assert(entries_json(s) =~= s.map_values(shown));
    }
}

/// How far a file is away is told from the second step on.
pub proof fn law_depth_prefix(depth: nat)
    ensures
        depth <= 1 ==> depth_prefix(depth).len() == 0,
        depth > 1 ==> depth_prefix(depth) == "(depth "@ + text::decimal(depth) + ") "@,
{
}

}
