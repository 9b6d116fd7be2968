//! Setup: the hooks of an editor agent that keep the index up to date.
use vstd::prelude::*;

use crate::json;
use crate::json::{Json, JsonView};
use crate::text;

verus! {

/// Why a configuration was not changed.
#[derive(Debug)]
pub enum SetupError {
    /// The configuration is no JSON text.
    Invalid { error: String },
    /// The configuration is no JSON object.
    ConfigNotObject,
    /// The member `hooks` of the configuration is no JSON object.
    HooksNotObject,
}

impl SetupError {
    /// The text of the error.
    pub open spec fn message_text(&self) -> Seq<char> {
        match self {
            SetupError::Invalid { error } => error@,
            SetupError::ConfigNotObject => "Config is not a JSON object"@,
            SetupError::HooksNotObject => "hooks is not a JSON object"@,
        }
    }

    /// The error in words.
    pub fn message(&self) -> (r: String)
        ensures
            r@ == self.message_text(),
    {
        match self {
            SetupError::Invalid { error } => error.clone(),
            SetupError::ConfigNotObject => "Config is not a JSON object".to_string(),
            SetupError::HooksNotObject => "hooks is not a JSON object".to_string(),
        }
    }
}

/// The command that runs at the start of a session.
pub const SESSION_COMMAND: &'static str = "codemap map";

/// The command that runs after files were changed.
pub const POST_TOOL_COMMAND: &'static str = "codemap index --incremental";

/// Whether a hook runs a command of this program.
pub open spec fn runs_codemap(hook: JsonView) -> bool {
    match json::opt_text(json::field(hook, "command"@)) {
        Some(command) => ("codemap"@).is_prefix_of(command),
        None => false,
    }
}

/// Whether one of the hooks runs a command of this program.
pub open spec fn any_runs_codemap(hooks: Seq<JsonView>) -> bool {
    exists|i: int| 0 <= i < hooks.len() && runs_codemap(#[trigger] hooks[i])
}

/// Whether an entry of a hook list holds a hook that runs a command of this program.
pub open spec fn is_own_entry(entry: JsonView) -> bool {
    match json::opt_items(json::field(entry, "hooks"@)) {
        Some(hooks) => any_runs_codemap(hooks),
        None => false,
    }
}

/// The entry for the start of a session.
pub open spec fn session_entry() -> JsonView {
    JsonView::Object(
        seq![
            (
                "hooks"@,
                JsonView::Array(
                    seq![
                        JsonView::Object(
                            seq![
                                ("type"@, JsonView::Text("command"@)),
                                ("command"@, JsonView::Text(SESSION_COMMAND@)),
                                ("timeout"@, json::whole_view(10)),
                            ],
                        ),
                    ],
                ),
            ),
        ],
    )
}

/// The entry for changes of files.
pub open spec fn post_tool_entry() -> JsonView {
    JsonView::Object(
        seq![
            ("matcher"@, JsonView::Text("Write|Edit|MultiEdit"@)),
            (
                "hooks"@,
                JsonView::Array(
                    seq![
                        JsonView::Object(
                            seq![
                                ("type"@, JsonView::Text("command"@)),
                                ("command"@, JsonView::Text(POST_TOOL_COMMAND@)),
                                ("timeout"@, json::whole_view(60)),
                                ("async"@, JsonView::Bool(true)),
                            ],
                        ),
                    ],
                ),
            ),
        ],
    )
}

/// The entries of others.
pub open spec fn foreign_entries(entries: Seq<JsonView>) -> Seq<JsonView> {
    entries.filter(|e: JsonView| !is_own_entry(e))
}

/// A hook list with the entries of others and one of its own at the end, if there is to be one. A
/// value that is no list stays as it is.
pub open spec fn merged_list(list: Option<JsonView>, own: Seq<JsonView>) -> JsonView {
    match list {
        Some(JsonView::Array(entries)) => JsonView::Array(foreign_entries(entries) + own),
        Some(other) => other,
        None => JsonView::Array(own),
    }
}

/// The position of the first member with this name, or the number of members.
pub open spec fn member_at(members: Seq<(Seq<char>, JsonView)>, key: Seq<char>) -> int
    decreases members.len(),
{
    if members.len() == 0 || members[0].0 == key {
        0
    } else {
        1 + member_at(members.drop_first(), key)
    }
}

/// The members with another value for one of them, which may be new.
pub open spec fn with_value(
    members: Seq<(Seq<char>, JsonView)>,
    key: Seq<char>,
    value: JsonView,
) -> Seq<(Seq<char>, JsonView)> {
    let i = member_at(members, key);
    if i < members.len() {
        members.update(i, (key, value))
    } else {
        members.push((key, value))
    }
}

/// The own entry after changes of files, if it is wanted.
pub open spec fn post_entries(no_post_hook: bool) -> Seq<JsonView> {
    if no_post_hook {
        Seq::empty()
    } else {
        seq![post_tool_entry()]
    }
}

/// The hook lists with the own entries.
pub open spec fn merged_hooks(
    hooks: Seq<(Seq<char>, JsonView)>,
    no_post_hook: bool,
) -> Seq<(Seq<char>, JsonView)> {
    let first = with_value(
        hooks,
        "SessionStart"@,
        merged_list(json::member(hooks, "SessionStart"@), seq![session_entry()]),
    );
    with_value(
        first,
        "PostToolUse"@,
        merged_list(json::member(first, "PostToolUse"@), post_entries(no_post_hook)),
    )
}

/// A configuration with the own hooks, or what keeps it from having them.
pub open spec fn merged(config: JsonView, no_post_hook: bool) -> Result<JsonView, bool> {
    match config {
        JsonView::Object(members) => match json::member(members, "hooks"@) {
            Some(JsonView::Object(hooks)) => Ok(
                JsonView::Object(
                    with_value(
                        members,
                        "hooks"@,
                        JsonView::Object(merged_hooks(hooks, no_post_hook)),
                    ),
                ),
            ),
            Some(_) => Err(true),
            None => Ok(
                JsonView::Object(
                    with_value(
                        members,
                        "hooks"@,
                        JsonView::Object(merged_hooks(Seq::empty(), no_post_hook)),
                    ),
                ),
            ),
        },
        _ => Err(false),
    }
}

/// Whether an entry of a hook list holds a hook that runs a command of this program.
pub fn is_codemap_hook_entry(entry: &Json) -> (r: bool)
    ensures
        r == is_own_entry(entry.tree()),
{
    let hooks = json::get(Some(entry), "hooks");
    match json::as_array(hooks) {
        Some(items) => {
            let ghost all = json::trees(items@);
            for i in 0..items.len()
                invariant
                    all == json::trees(items@),
                    json::opt_items(json::field(entry.tree(), "hooks"@)) == Some(all),
                    forall|k: int| 0 <= k < i ==> !runs_codemap(#[trigger] all[k]),
            {
                assert(all[i as int] == items@[i as int].tree());
                match json::as_str(json::get(Some(&items[i]), "command")) {
                    Some(command) => {
                        if text::starts_with(command, "codemap") {
                            assert(0 <= i < all.len() && runs_codemap(all[i as int]));
                            assert(any_runs_codemap(all));
                            return true;
                        }
                    },
                    None => {},
                }
                assert(!runs_codemap(all[i as int]));
            }
            false
        },
        None => false,
    }
}

/// The entry for the start of a session.
fn build_session_entry() -> (r: Json)
    ensures
        r.tree() == session_entry(),
{
    let hook = json::add_member(json::empty_object(), "type", json::text_value("command"));
    let hook = json::add_member(hook, "command", json::text_value(SESSION_COMMAND));
    let hook = json::add_member(hook, "timeout", json::whole_value(10));
    let mut hooks: Vec<Json> = Vec::new();
    assert(json::trees(hooks@) =~= Seq::<JsonView>::empty());
    json::push_value(&mut hooks, hook);
    let entry = json::add_member(json::empty_object(), "hooks", json::array_value(hooks));
    proof {
        let want = session_entry()->Object_0;
        let have = entry.tree()->Object_0;
        let want_hooks = want[0].1->Array_0;
        let have_hooks = have[0].1->Array_0;
        assert(have_hooks[0]->Object_0 =~= want_hooks[0]->Object_0);
        assert(have_hooks =~= want_hooks);
        assert(have =~= want);
    }
    entry
}

/// The entry for changes of files.
fn build_post_tool_entry() -> (r: Json)
    ensures
        r.tree() == post_tool_entry(),
{
    let hook = json::add_member(json::empty_object(), "type", json::text_value("command"));
    let hook = json::add_member(hook, "command", json::text_value(POST_TOOL_COMMAND));
    let hook = json::add_member(hook, "timeout", json::whole_value(60));
    let hook = json::add_member(hook, "async", Json::Bool(true));
    let mut hooks: Vec<Json> = Vec::new();
    assert(json::trees(hooks@) =~= Seq::<JsonView>::empty());
    json::push_value(&mut hooks, hook);
    let entry = json::add_member(
        json::empty_object(),
        "matcher",
        json::text_value("Write|Edit|MultiEdit"),
    );
    let entry = json::add_member(entry, "hooks", json::array_value(hooks));
    proof {
        let want = post_tool_entry()->Object_0;
        let have = entry.tree()->Object_0;
        let want_hooks = want[1].1->Array_0;
        let have_hooks = have[1].1->Array_0;
        assert(have_hooks[0]->Object_0 =~= want_hooks[0]->Object_0);
        assert(have_hooks =~= want_hooks);
        assert(have =~= want);
    }
    entry
}

/// A hook list with the entries of others and the own ones at the end.
fn merge_list(list: Option<&Json>, own: Vec<Json>) -> (r: Json)
    ensures
        r.tree() == merged_list(json::opt_tree(list), json::trees(own@)),
{
    match list {
        None => json::array_value(own),
        Some(value) => {
            match json::as_array(Some(value)) {
                Some(entries) => {
                    let ghost all = json::trees(entries@);
                    let ghost keep = |e: JsonView| !is_own_entry(e);
                    let mut out: Vec<Json> = Vec::new();
                    proof {
                        reveal(Seq::filter);
                        assert(all.take(0) =~= Seq::<JsonView>::empty());
                        assert(json::trees(out@) =~= Seq::<JsonView>::empty());
                    }
                    for i in 0..entries.len()
                        invariant
                            all == json::trees(entries@),
                            keep == (|e: JsonView| !is_own_entry(e)),
                            json::trees(out@) == all.take(i as int).filter(keep),
                    {
                        reveal(Seq::filter);
                        proof {
                            assert(all.take(i + 1).drop_last() =~= all.take(i as int));
                            assert(all.take(i + 1).last() == entries@[i as int].tree());
                        }
                        if !is_codemap_hook_entry(&entries[i]) {
                            json::push_value(&mut out, json::copy(&entries[i]));
                        }
                    }
                    assert(all.take(all.len() as int) =~= all);
                    let ghost kept = json::trees(out@);
                    let ghost added = json::trees(own@);
                    let mut own = own;
                    out.append(&mut own);
                    assert(json::trees(out@) =~= kept + added);
                    json::array_value(out)
                },
                None => {
                    assert(!(value.tree() is Array));
                    json::copy(value)
                },
            }
        },
    }
}

/// Gives a member of an object another value; the member may be new.
fn set_value(members: Vec<(String, Json)>, key: &str, value: Json) -> (r: Vec<(String, Json)>)
    ensures
        json::member_trees(r@) == with_value(json::member_trees(members@), key@, value.tree()),
{
    let ghost all = json::member_trees(members@);
    let ghost shown = (key@, value.tree());
    let wanted = key.to_string();
    let mut members = members;
    let mut at: usize = 0;
    assert(all.skip(0) =~= all);
    while at < members.len() && members[at].0 != wanted
        invariant
            all == json::member_trees(members@),
            wanted@ == key@,
            at <= members@.len(),
            member_at(all, key@) == at + member_at(all.skip(at as int), key@),
        decreases members@.len() - at,
    {
        assert(all.skip(at as int)[0].0 == members@[at as int].0@);
        assert(all.skip(at as int).drop_first() =~= all.skip(at + 1));
        at += 1;
    }
    if at < members.len() {
        assert(all.skip(at as int)[0].0 == members@[at as int].0@);
        members.set(at, (wanted, value));
        assert(json::member_trees(members@) =~= all.update(at as int, shown));
    } else {
        members.push((wanted, value));
        assert(json::member_trees(members@) =~= all.push(shown));
    }
    members
}

/// The value of a member of an object.
fn find_value<'a>(members: &'a Vec<(String, Json)>, key: &str) -> (r: Option<&'a Json>)
    ensures
        json::opt_tree(r) == json::member(json::member_trees(members@), key@),
{
    let ghost all = json::member_trees(members@);
    let wanted = key.to_string();
    assert(all.skip(0) =~= all);
    for i in 0..members.len()
        invariant
            all == json::member_trees(members@),
            wanted@ == key@,
            json::member(all, key@) == json::member(all.skip(i as int), key@),
    {
        assert(all.skip(i as int)[0] == (members@[i as int].0@, members@[i as int].1.tree()));
        if members[i].0 == wanted {
            return Some(&members[i].1);
        }
        assert(all.skip(i as int).drop_first() =~= all.skip(i + 1));
    }
    None
}

/// The hook lists with the own entries.
fn merge_hooks(hooks: Vec<(String, Json)>, no_post_hook: bool) -> (r: Vec<(String, Json)>)
    ensures
        json::member_trees(r@) == merged_hooks(json::member_trees(hooks@), no_post_hook),
{
    let mut session: Vec<Json> = Vec::new();
    assert(json::trees(session@) =~= Seq::<JsonView>::empty());
    json::push_value(&mut session, build_session_entry());
    assert(json::trees(session@) =~= seq![session_entry()]);
    let list = merge_list(find_value(&hooks, "SessionStart"), session);
    let hooks = set_value(hooks, "SessionStart", list);
    let mut post: Vec<Json> = Vec::new();
    assert(json::trees(post@) =~= Seq::<JsonView>::empty());
    if !no_post_hook {
        json::push_value(&mut post, build_post_tool_entry());
    }
    assert(json::trees(post@) =~= post_entries(no_post_hook));
    let list = merge_list(find_value(&hooks, "PostToolUse"), post);
    set_value(hooks, "PostToolUse", list)
}

/// Gives a configuration the own hooks, in place of those it had before; the hooks of others stay.
pub fn merge_config(config: Json, no_post_hook: bool) -> (r: Result<Json, SetupError>)
    ensures
        match merged(config.tree(), no_post_hook) {
            Ok(after) => r matches Ok(v) && v.tree() == after,
            Err(hooks) => r matches Err(e) && e == (if hooks {
                SetupError::HooksNotObject
            } else {
                SetupError::ConfigNotObject
            }),
        },
{
    broadcast use json::lemma_object_tree;

    match config {
        Json::Object(members) => {
            let hooks: Vec<(String, Json)> = match find_value(&members, "hooks") {
                Some(value) => {
                    match json::copy(value) {
                        Json::Object(hooks) => hooks,
                        _ => {
                            return Err(SetupError::HooksNotObject);
                        },
                    }
                },
                None => {
                    let none: Vec<(String, Json)> = Vec::new();
                    assert(json::member_trees(none@) =~= Seq::empty());
                    none
                },
            };
            let hooks = merge_hooks(hooks, no_post_hook);
            Ok(Json::Object(set_value(members, "hooks", Json::Object(hooks))))
        },
        _ => Err(SetupError::ConfigNotObject),
    }
}

/// What a configuration file holds: its text, or nothing where there is no such file.
pub open spec fn config_view(content: Option<Seq<char>>) -> Result<JsonView, Seq<char>> {
    match content {
        Some(text) => json::parsed(text),
        None => Ok(JsonView::Object(Seq::empty())),
    }
}

/// The text of a configuration file with the own hooks, given the text it had, if there was one.
pub fn configure(content: Option<&str>, no_post_hook: bool) -> (r: Result<String, SetupError>)
    ensures
        match config_view(json::opt_str(content)) {
            Err(e) => r matches Err(SetupError::Invalid { error }) && error@ == e,
            Ok(config) => match merged(config, no_post_hook) {
                Ok(after) => r matches Ok(out) && out@ == json::pretty(after),
                Err(hooks) => r matches Err(e) && e == (if hooks {
                    SetupError::HooksNotObject
                } else {
                    SetupError::ConfigNotObject
                }),
            },
        },
{
    let config = match content {
        Some(text) => {
            match json::parse(text) {
                Ok(v) => v,
                Err(error) => {
                    return Err(SetupError::Invalid { error });
                },
            }
        },
        None => json::empty_object(),
    };
    match merge_config(config, no_post_hook) {
        Ok(after) => Ok(json::to_pretty(&after)),
        Err(e) => Err(e),
    }
}

// ---------------------------------------------------------------------------------------------
// Laws
// ---------------------------------------------------------------------------------------------

/// Where a member stands, and what it holds.
proof fn lemma_member(members: Seq<(Seq<char>, JsonView)>, key: Seq<char>)
    ensures
        0 <= member_at(members, key) <= members.len(),
        forall|j: int|
            0 <= j < member_at(members, key) ==> (#[trigger] members[j]).0 != key,
        member_at(members, key) < members.len() ==> members[member_at(members, key)].0 == key
            && json::member(members, key) == Some(members[member_at(members, key)].1),
        member_at(members, key) == members.len() ==> json::member(members, key) is None,
    decreases members.len(),
{
    if members.len() > 0 && members[0].0 != key {
        let rest = members.drop_first();
        lemma_member(rest, key);
        assert forall|j: int| 0 <= j < member_at(members, key) implies (#[trigger] members[j]).0
            != key by {
            if j > 0 {
                assert(rest[j - 1] == members[j]);
            }
        }
    }
}

/// The first position with a name is where its member stands.
proof fn lemma_member_at(members: Seq<(Seq<char>, JsonView)>, key: Seq<char>, i: int)
    requires
        0 <= i < members.len(),
        members[i].0 == key,
        forall|j: int| 0 <= j < i ==> (#[trigger] members[j]).0 != key,
    ensures
        member_at(members, key) == i,
{
    lemma_member(members, key);
    let at = member_at(members, key);
    if at < i {
        assert(members[at].0 != key);
    } else if i < at {
        assert(members[i].0 != key);
    }
}

/// A value that is given to a member is read back, and the other members keep theirs.
proof fn lemma_with_value(
    members: Seq<(Seq<char>, JsonView)>,
    key: Seq<char>,
    value: JsonView,
    other: Seq<char>,
)
    requires
        other != key,
    ensures
        json::member(with_value(members, key, value), key) == Some(value),
        json::member(with_value(members, key, value), other) == json::member(members, other),
{
    lemma_member(members, key);
    lemma_member(members, other);
    let after = with_value(members, key, value);
    let at = member_at(members, key);
    assert(after[at] == (key, value));
    assert forall|j: int| 0 <= j < at implies (#[trigger] after[j]).0 != key by {
        assert(members[j].0 != key);
    }
    lemma_member_at(after, key, at);
    lemma_member(after, key);
    let o = member_at(members, other);
    lemma_member(after, other);
    if o < members.len() {
        assert(after[o] == members[o]);
        assert forall|j: int| 0 <= j < o implies (#[trigger] after[j]).0 != other by {
            if j == at {
                assert(after[j].0 == key);
            } else {
                assert(members[j].0 != other);
            }
        }
        lemma_member_at(after, other, o);
    } else {
        let p = member_at(after, other);
        if p < after.len() {
            assert(after[p].0 == other);
            if p == at {
                assert(after[p].0 == key);
            } else {
                assert(members[p].0 != other);
            }
        }
    }
}

/// Giving a member the value it has changes nothing.
proof fn lemma_same_value(members: Seq<(Seq<char>, JsonView)>, key: Seq<char>, value: JsonView)
    requires
        json::member(members, key) == Some(value),
    ensures
        with_value(members, key, value) == members,
{
    lemma_member(members, key);
    let at = member_at(members, key);
    assert(members.update(at, (key, value)) =~= members);
}

/// The entry for the start of a session is an own one.
proof fn lemma_session_entry_own()
    ensures
        is_own_entry(session_entry()),
{
    reveal_strlit("codemap");
    reveal_strlit("codemap map");
    reveal_strlit("hooks");
    reveal_strlit("type");
    reveal_strlit("command");
    reveal_strlit("timeout");
    reveal_with_fuel(json::member, 4);
    let members = session_entry()->Object_0;
    let hooks = members[0].1->Array_0;
    let hook = hooks[0]->Object_0;
    assert("type"@.len() != "command"@.len());
    assert(hook.drop_first()[0] == hook[1]);
    assert(json::field(hooks[0], "command"@) == Some(JsonView::Text(SESSION_COMMAND@)));
    assert(("codemap"@).is_prefix_of(SESSION_COMMAND@));
    assert(runs_codemap(hooks[0]));
    assert(any_runs_codemap(hooks));
}

/// The entry for changes of files is an own one.
proof fn lemma_post_tool_entry_own()
    ensures
        is_own_entry(post_tool_entry()),
{
    reveal_strlit("codemap");
    reveal_strlit("codemap index --incremental");
    reveal_strlit("hooks");
    reveal_strlit("matcher");
    reveal_strlit("type");
    reveal_strlit("command");
    reveal_with_fuel(json::member, 4);
    let members = post_tool_entry()->Object_0;
    assert("matcher"@.len() != "hooks"@.len());
    assert(members.drop_first()[0] == members[1]);
    let hooks = members[1].1->Array_0;
    assert(json::field(post_tool_entry(), "hooks"@) == Some(members[1].1));
    let hook = hooks[0]->Object_0;
    assert("type"@.len() != "command"@.len());
    assert(hook.drop_first()[0] == hook[1]);
    assert(json::field(hooks[0], "command"@) == Some(JsonView::Text(POST_TOOL_COMMAND@)));
    assert(("codemap"@).is_prefix_of(POST_TOOL_COMMAND@));
    assert(runs_codemap(hooks[0]));
    assert(any_runs_codemap(hooks));
}

/// The entries of others among some entries and one more.
proof fn lemma_foreign_push(entries: Seq<JsonView>, last: JsonView)
    ensures
        foreign_entries(entries.push(last)) == (if is_own_entry(last) {
            foreign_entries(entries)
        } else {
            foreign_entries(entries).push(last)
        }),
{
    reveal(Seq::filter);
    assert(entries.push(last).drop_last() =~= entries);
}

/// The entries of others among entries of which some were taken out already.
proof fn lemma_foreign_of_foreign(entries: Seq<JsonView>, own: Seq<JsonView>)
    requires
        forall|k: int| 0 <= k < own.len() ==> is_own_entry(#[trigger] own[k]),
    ensures
        foreign_entries(foreign_entries(entries) + own) == foreign_entries(entries),
    decreases own.len(),
{
    let kept = foreign_entries(entries);
    if own.len() == 0 {
        assert(kept + own =~= kept);
        lemma_foreign_twice(entries);
    } else {
        let last = own[own.len() - 1];
        lemma_foreign_of_foreign(entries, own.drop_last());
        assert(kept + own =~= (kept + own.drop_last()).push(last));
        lemma_foreign_push(kept + own.drop_last(), last);
        assert(is_own_entry(last));
    }
}

/// The entries of others are the entries of others among themselves.
proof fn lemma_foreign_twice(entries: Seq<JsonView>)
    ensures
        foreign_entries(foreign_entries(entries)) == foreign_entries(entries),
    decreases entries.len(),
{
    if entries.len() > 0 {
        lemma_foreign_twice(entries.drop_last());
        let before = foreign_entries(entries.drop_last());
        assert(entries =~= entries.drop_last().push(entries.last()));
        lemma_foreign_push(entries.drop_last(), entries.last());
        lemma_foreign_push(before, entries.last());
    } else {
        reveal(Seq::filter);
        assert(foreign_entries(entries) =~= entries);
    }
}

/// A hook list that has the own entries stays as it is.
proof fn lemma_merged_list_twice(list: Option<JsonView>, own: Seq<JsonView>)
    requires
        forall|k: int| 0 <= k < own.len() ==> is_own_entry(#[trigger] own[k]),
    ensures
        merged_list(Some(merged_list(list, own)), own) == merged_list(list, own),
{
    match list {
        Some(JsonView::Array(entries)) => {
            lemma_foreign_of_foreign(entries, own);
        },
        Some(_) => {},
        None => {
            reveal(Seq::filter);
            let none = Seq::<JsonView>::empty();
            assert(foreign_entries(none) =~= none);
            lemma_foreign_of_foreign(none, own);
            assert(foreign_entries(none) + own =~= own);
            assert(foreign_entries(own) + own =~= own);
        },
    }
}

/// The entries of others in a hook list are the same before and after own entries are put in.
proof fn lemma_foreign_stay(entries: Seq<JsonView>, own: Seq<JsonView>)
    requires
        forall|k: int| 0 <= k < own.len() ==> is_own_entry(#[trigger] own[k]),
    ensures
        foreign_entries(merged_list(Some(JsonView::Array(entries)), own)->Array_0)
            == foreign_entries(entries),
{
    lemma_foreign_of_foreign(entries, own);
}

/// The entries that are put in are own ones.
proof fn lemma_own_lists(no_post_hook: bool)
    ensures
        forall|k: int|
            0 <= k < seq![session_entry()].len() ==> is_own_entry(
                #[trigger] seq![session_entry()][k],
            ),
        forall|k: int|
            0 <= k < post_entries(no_post_hook).len() ==> is_own_entry(
                #[trigger] post_entries(no_post_hook)[k],
            ),
{
    lemma_session_entry_own();
    lemma_post_tool_entry_own();
}

/// Setup leaves the hooks of others as they are and in their order: the entries of others in a list
/// are the same before and after.
pub proof fn law_foreign_hooks_stay(entries: Seq<JsonView>, no_post_hook: bool)
    ensures
        foreign_entries(
            merged_list(Some(JsonView::Array(entries)), seq![session_entry()])->Array_0,
        ) == foreign_entries(entries),
        foreign_entries(
            merged_list(Some(JsonView::Array(entries)), post_entries(no_post_hook))->Array_0,
        ) == foreign_entries(entries),
{
    lemma_own_lists(no_post_hook);
    lemma_foreign_stay(entries, seq![session_entry()]);
    lemma_foreign_stay(entries, post_entries(no_post_hook));
}

/// Setup twice is the same as setup once.
pub proof fn law_setup_idempotent(config: JsonView, no_post_hook: bool)
    requires
        merged(config, no_post_hook) is Ok,
    ensures
        merged(merged(config, no_post_hook)->Ok_0, no_post_hook) == merged(config, no_post_hook),
{
    reveal_strlit("SessionStart");
    reveal_strlit("PostToolUse");
    assert("SessionStart"@.len() != "PostToolUse"@.len());
    let members = config->Object_0;
    let hooks = match json::member(members, "hooks"@) {
        Some(JsonView::Object(h)) => h,
        _ => Seq::empty(),
    };
    let post = post_entries(no_post_hook);
    lemma_own_lists(no_post_hook);
    let list1 = merged_list(json::member(hooks, "SessionStart"@), seq![session_entry()]);
    let first = with_value(hooks, "SessionStart"@, list1);
    let list2 = merged_list(json::member(first, "PostToolUse"@), post);
    let both = with_value(first, "PostToolUse"@, list2);
    assert(both == merged_hooks(hooks, no_post_hook));
    lemma_with_value(hooks, "SessionStart"@, list1, "PostToolUse"@);
    lemma_with_value(first, "PostToolUse"@, list2, "SessionStart"@);
    lemma_merged_list_twice(json::member(hooks, "SessionStart"@), seq![session_entry()]);
    lemma_merged_list_twice(json::member(first, "PostToolUse"@), post);
    lemma_same_value(both, "SessionStart"@, list1);
    lemma_same_value(both, "PostToolUse"@, list2);
    assert(merged_hooks(both, no_post_hook) == both);
    let after = with_value(members, "hooks"@, JsonView::Object(both));
    let other = "hooks"@.push('x');
    assert(other.len() != "hooks"@.len());
    lemma_with_value(members, "hooks"@, JsonView::Object(both), other);
    lemma_same_value(after, "hooks"@, JsonView::Object(both));
}

// ---------------------------------------------------------------------------------------------
// What is told
// ---------------------------------------------------------------------------------------------

/// What is told of the index.
pub fn indexed_line(files: i64, exports: i64, edges: i64) -> (r: String)
    ensures
        r@ == "\u{2713} Indexed "@ + text::signed(files as int) + " files ("@ + text::signed(
            exports as int,
        ) + " exports, "@ + text::signed(edges as int) + " edges)\n"@,
{
    let mut out = "\u{2713} Indexed ".to_string();
    out.append(text::signed_of(files).as_str());
    out.append(" files (");
    out.append(text::signed_of(exports).as_str());
    out.append(" exports, ");
    out.append(text::signed_of(edges).as_str());
    out.append(" edges)\n");
    out
}

/// What is told at the end.
pub const READY: &'static str = "\n\
codemap is ready. Start the client and it will automatically\n\
receive the codebase map and know how to use codemap commands.\n";

/// What is told of the configuration `pretty`, which was written to `path`, or would be.
pub open spec fn setup_text(
    path: Seq<char>,
    pretty: Seq<char>,
    no_post_hook: bool,
    dry_run: bool,
) -> Seq<char> {
    let written = if dry_run {
        "Would write to "@ + path + ":\n"@ + pretty + "\n"@
    } else {
        "\u{2713} Wrote SessionStart hook to "@ + path + "\n"@
    };
    let hooks = if dry_run || no_post_hook {
        written
    } else {
        written + "\u{2713} Wrote PostToolUse hook (async re-index on file changes)\n"@
    };
    hooks + READY@
}

/// What is told of the configuration `pretty`, which was written to `path`, or would be.
pub fn setup_report(path: &str, pretty: &str, no_post_hook: bool, dry_run: bool) -> (r: String)
    ensures
        r@ == setup_text(path@, pretty@, no_post_hook, dry_run),
{
    let mut out = if dry_run {
        "Would write to ".to_string().concat(path).concat(":\n").concat(pretty).concat("\n")
    } else {
        "\u{2713} Wrote SessionStart hook to ".to_string().concat(path).concat("\n")
    };
    if !dry_run && !no_post_hook {
        out.append("\u{2713} Wrote PostToolUse hook (async re-index on file changes)\n");
    }
    out.append(READY);
    out
}

/// After a setup, the settings hold one entry of codemap for the start of a session, and one for
/// what comes behind a tool unless that is declined, each behind all entries of others; all other
/// settings and hooks are as they were.
pub proof fn law_setup_result(
    config: JsonView,
    no_post_hook: bool,
    other: Seq<char>,
    other_hook: Seq<char>,
)
    requires
        config is Object,
        json::field(config, "hooks"@) is None || json::field(config, "hooks"@)->0 is Object,
        other != "hooks"@,
        other_hook != "SessionStart"@,
        other_hook != "PostToolUse"@,
    ensures
        ({
            let before = json::field(config, "hooks"@);
            let after = json::field(merged(config, no_post_hook)->Ok_0, "hooks"@);
            let foreign = |list: Option<Seq<JsonView>>|
                match list {
                    Some(entries) => entries.filter(|e: JsonView| !is_own_entry(e)),
                    None => Seq::empty(),
                };
            let start = json::opt_field(before, "SessionStart"@);
            let behind = json::opt_field(before, "PostToolUse"@);
            &&& merged(config, no_post_hook) is Ok
            &&& json::field(merged(config, no_post_hook)->Ok_0, other) == json::field(config, other)
            &&& json::opt_field(after, other_hook) == json::opt_field(before, other_hook)
            &&& start is None || start->0 is Array ==> json::opt_items(
                json::opt_field(after, "SessionStart"@),
            ) == Some(foreign(json::opt_items(start)).push(session_entry()))
            &&& behind is None || behind->0 is Array ==> json::opt_items(
                json::opt_field(after, "PostToolUse"@),
            ) == Some(
                if no_post_hook {
                    foreign(json::opt_items(behind))
                } else {
                    foreign(json::opt_items(behind)).push(post_tool_entry())
                },
            )
        }),
{
    reveal_strlit("SessionStart");
    reveal_strlit("PostToolUse");
    assert("SessionStart"@.len() != "PostToolUse"@.len());
    let members = config->Object_0;
    let hooks = match json::member(members, "hooks"@) {
        Some(JsonView::Object(h)) => h,
        _ => Seq::empty(),
    };
    let post = post_entries(no_post_hook);
    let start = json::member(hooks, "SessionStart"@);
    let list1 = merged_list(start, seq![session_entry()]);
    let first = with_value(hooks, "SessionStart"@, list1);
    let behind = json::member(first, "PostToolUse"@);
    let list2 = merged_list(behind, post);
    let both = with_value(first, "PostToolUse"@, list2);
    lemma_with_value(hooks, "SessionStart"@, list1, "PostToolUse"@);
    lemma_with_value(first, "PostToolUse"@, list2, "SessionStart"@);
    lemma_with_value(hooks, "SessionStart"@, list1, other_hook);
    lemma_with_value(first, "PostToolUse"@, list2, other_hook);
    lemma_with_value(members, "hooks"@, JsonView::Object(both), other);
    if start is Some && start->0 is Array {
        let entries = start->0->Array_0;
        assert(foreign_entries(entries) + seq![session_entry()] =~= foreign_entries(entries).push(
            session_entry(),
        ));
    } else if start is None {
        assert(Seq::<JsonView>::empty().push(session_entry()) =~= seq![session_entry()]);
    }
    if behind is Some && behind->0 is Array {
        let entries = behind->0->Array_0;
        assert(foreign_entries(entries) + post =~= (if no_post_hook {
            foreign_entries(entries)
        } else {
            foreign_entries(entries).push(post_tool_entry())
        }));
    } else if behind is None {
        assert(post =~= (if no_post_hook {
            Seq::<JsonView>::empty()
        } else {
            Seq::<JsonView>::empty().push(post_tool_entry())
        }));
    }
}

/// An entry is one of codemap if and only if one of its commands begins with its name.
pub proof fn law_own_entries(entry: JsonView)
    ensures
        is_own_entry(entry) == exists|i: int, rest: Seq<char>|
            #![trigger json::opt_item(json::field(entry, "hooks"@), i), "codemap"@ + rest]
            json::opt_text(
                json::opt_field(json::opt_item(json::field(entry, "hooks"@), i), "command"@),
            ) == Some("codemap"@ + rest),
{
    let name = "codemap"@;
    let list = json::field(entry, "hooks"@);
    if is_own_entry(entry) {
        let hooks = json::opt_items(list)->0;
        let i = choose|i: int| 0 <= i < hooks.len() && runs_codemap(#[trigger] hooks[i]);
        let command = json::opt_text(json::field(hooks[i], "command"@))->0;
        let rest = command.skip(name.len() as int);
        assert(command =~= name + rest);
        assert(json::opt_item(list, i) == Some(hooks[i]));
        assert(json::opt_text(json::opt_field(json::opt_item(list, i), "command"@)) == Some(
            "codemap"@ + rest,
        ));
    }
    if exists|i: int, rest: Seq<char>|
        #![trigger json::opt_item(json::field(entry, "hooks"@), i), "codemap"@ + rest]
        json::opt_text(json::opt_field(json::opt_item(list, i), "command"@)) == Some(
            "codemap"@ + rest,
        ) {
        let (i, rest) = choose|i: int, rest: Seq<char>|
            #![trigger json::opt_item(json::field(entry, "hooks"@), i), "codemap"@ + rest]
            json::opt_text(json::opt_field(json::opt_item(list, i), "command"@)) == Some(
                "codemap"@ + rest,
            );
        let hooks = json::opt_items(list)->0;
        let command = "codemap"@ + rest;
        assert(name =~= command.take(name.len() as int));
        assert(runs_codemap(hooks[i]));
    }
}

/// The commands of the entries and how long each may take.
pub proof fn law_entries()
    ensures
        ({
            let hook = json::opt_item(json::field(session_entry(), "hooks"@), 0);
            &&& json::opt_text(json::opt_field(hook, "command"@)) == Some("codemap map"@)
            &&& json::opt_whole(json::opt_field(hook, "timeout"@)) == Some(10u64)
        }),
        ({
            let hook = json::opt_item(json::field(post_tool_entry(), "hooks"@), 0);
            &&& json::opt_text(json::field(post_tool_entry(), "matcher"@)) == Some(
                "Write|Edit|MultiEdit"@,
            )
            &&& json::opt_text(json::opt_field(hook, "command"@)) == Some(
                "codemap index --incremental"@,
            )
            &&& json::opt_whole(json::opt_field(hook, "timeout"@)) == Some(60u64)
            &&& json::is_true(json::opt_field(hook, "async"@))
        }),
{
    reveal_with_fuel(json::member, 5);
    reveal_strlit("hooks");
    reveal_strlit("matcher");
    reveal_strlit("type");
    reveal_strlit("command");
    reveal_strlit("timeout");
    reveal_strlit("async");
    assert("hooks"@.len() == 5 && "matcher"@.len() == 7 && "type"@.len() == 4 && "command"@.len()
        == 7 && "timeout"@.len() == 7 && "async"@.len() == 5);
    assert("command"@[0] == 'c' && "timeout"@[0] == 't');
    let a = session_entry()->Object_0;
    let first = a[0].1->Array_0[0]->Object_0;
    assert(first.drop_first()[0] == first[1]);
    assert(first.drop_first().drop_first()[0] == first[2]);
    let b = post_tool_entry()->Object_0;
    assert(b.drop_first()[0] == b[1]);
    let second = b[1].1->Array_0[0]->Object_0;
    assert(second.drop_first()[0] == second[1]);
    assert(second.drop_first().drop_first()[0] == second[2]);
    assert(second.drop_first().drop_first().drop_first()[0] == second[3]);
}

/// A setup that is only tried says what it would write, and one that is made says which hooks it
/// wrote.
pub proof fn law_setup_text(path: Seq<char>, pretty: Seq<char>, no_post_hook: bool)
    ensures
        setup_text(path, pretty, no_post_hook, true) == "Would write to "@ + path + ":\n"@ + pretty
            + "\n"@ + READY@,
        setup_text(path, pretty, true, false) == "\u{2713} Wrote SessionStart hook to "@ + path
            + "\n"@ + READY@,
        setup_text(path, pretty, false, false) == "\u{2713} Wrote SessionStart hook to "@ + path
            + "\n"@ + "\u{2713} Wrote PostToolUse hook (async re-index on file changes)\n"@
            + READY@,
{
}

}
