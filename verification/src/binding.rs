//! What a shell can be told to do on a key or under a name.
//!
//! `scriv init` writes shell code, and which code it writes is configuration:
//! `[shell.bindings]` maps a key to an action and `[shell.aliases]` maps a
//! name to one. An action is a scriv command plus what the shell does with
//! what it prints; [`resolve`] turns the configuration into the list an
//! emitter walks, and refuses a name no action answers to.

use vstd::prelude::*;

use crate::config::{binding_entries, binding_table, Bindings, ShellConfig};
use crate::text::{join, join_strings, same};

verus! {

/// What the shell does with the command an action runs.
#[derive(Debug, Clone, Copy, PartialEq, Eq, Structural)]
pub enum Kind {
    /// Run it and let it write to the terminal.
    Run,
    /// Run it and `cd` to the path it prints.
    Cd,
    /// Put what it prints on the command line instead of running it.
    Line,
    /// [`Kind::Line`], but only where the shell would have gone to history
    /// anyway: on the first line of a prompt, outside the pager.
    LineOrUp,
}

/// One thing a key or a name can be bound to.
#[derive(Debug, Clone, Copy, PartialEq, Eq)]
pub struct Action {
    /// What the configuration calls it.
    pub id: &'static str,
    /// What the shell tells the user this is.
    pub description: &'static str,
    /// The arguments handed to `scriv`.
    pub args: &'static [&'static str],
    pub kind: Kind,
}

/// An action as values: its id, description, arguments and kind.
pub struct ActionView {
    pub id: Seq<char>,
    pub description: Seq<char>,
    pub args: Seq<&'static str>,
    pub kind: Kind,
}

impl View for Action {
    type V = ActionView;

    open spec fn view(&self) -> ActionView {
        ActionView {
            id: self.id@,
            description: self.description@,
            args: self.args@,
            kind: self.kind,
        }
    }
}

pub open spec fn act(id: &str, description: &str, args: Seq<&'static str>, kind: Kind) -> ActionView {
    ActionView { id: id@, description: description@, args, kind }
}

/// Everything that can be bound or aliased, in the order `scriv` lists them.
pub open spec fn catalog() -> Seq<ActionView> {
    seq![
        act("repo-cd", "Select a repository and cd into it", seq!["repo", "sel"], Kind::Cd),
        act("worktree-cd", "Select a git worktree and cd into it", seq!["worktree", "sel"], Kind::Cd),
        act("repo-open", "Open this repository on GitHub, or select one", seq!["repo", "open"], Kind::Run),
        act("file-edit", "Select a tracked file and open it in $EDITOR", seq!["edit", "--tracked"], Kind::Run),
        act("edit", "Find a file, fuzzy-select it, open it in $EDITOR", seq!["edit"], Kind::Run),
        act("note-edit", "Find a note by name or by what it says, and open it", seq!["note", "open"], Kind::Run),
        act("branch-checkout", "Select a git branch and check it out", seq!["branch", "checkout"], Kind::Run),
        act("pr-checkout", "Select a GitHub pull request and check it out", seq!["pr", "checkout"], Kind::Run),
        act("pr-open", "Open this branch's pull request, or the list", seq!["pr", "open", "--current"], Kind::Run),
        act("proc-kill", "Fuzzy-select running processes and kill them", seq!["ps", "kill", "--force"], Kind::Run),
        act("project-deps", "Install this project's dependencies", seq!["project", "deps"], Kind::Run),
        act("project-build", "Build this project", seq!["project", "build"], Kind::Run),
        act("history-select", "Fuzzy-select a past command onto the command line", seq!["history", "sel"], Kind::Line),
        act("history-up", "Search history, or move up within a multi-line command", seq!["history", "sel"], Kind::LineOrUp),
    ]
}

/// Everything that can be bound or aliased.
///
/// A verb belongs here when a shell can reach it faster than a typed command
/// can: it answers "which one", or the shell has to act on the answer itself.
pub fn actions() -> (r: Vec<Action>)
    ensures
        r@.map_values(|a: Action| a@) == catalog(),
{
    let mut v: Vec<Action> = Vec::new();
    v.push(Action { id: "repo-cd", description: "Select a repository and cd into it", args: &["repo", "sel"], kind: Kind::Cd });
    v.push(Action { id: "worktree-cd", description: "Select a git worktree and cd into it", args: &["worktree", "sel"], kind: Kind::Cd });
    v.push(Action { id: "repo-open", description: "Open this repository on GitHub, or select one", args: &["repo", "open"], kind: Kind::Run });
    v.push(Action { id: "file-edit", description: "Select a tracked file and open it in $EDITOR", args: &["edit", "--tracked"], kind: Kind::Run });
    v.push(Action { id: "edit", description: "Find a file, fuzzy-select it, open it in $EDITOR", args: &["edit"], kind: Kind::Run });
    v.push(Action { id: "note-edit", description: "Find a note by name or by what it says, and open it", args: &["note", "open"], kind: Kind::Run });
    v.push(Action { id: "branch-checkout", description: "Select a git branch and check it out", args: &["branch", "checkout"], kind: Kind::Run });
    v.push(Action { id: "pr-checkout", description: "Select a GitHub pull request and check it out", args: &["pr", "checkout"], kind: Kind::Run });
    v.push(Action { id: "pr-open", description: "Open this branch's pull request, or the list", args: &["pr", "open", "--current"], kind: Kind::Run });
    v.push(Action { id: "proc-kill", description: "Fuzzy-select running processes and kill them", args: &["ps", "kill", "--force"], kind: Kind::Run });
    v.push(Action { id: "project-deps", description: "Install this project's dependencies", args: &["project", "deps"], kind: Kind::Run });
    v.push(Action { id: "project-build", description: "Build this project", args: &["project", "build"], kind: Kind::Run });
    v.push(Action { id: "history-select", description: "Fuzzy-select a past command onto the command line", args: &["history", "sel"], kind: Kind::Line });
    v.push(Action { id: "history-up", description: "Search history, or move up within a multi-line command", args: &["history", "sel"], kind: Kind::LineOrUp });
    assert(v@.len() == catalog().len());
    assert(v@[0]@ == catalog()[0]);
    assert(v@[1]@ == catalog()[1]);
    assert(v@[2]@ == catalog()[2]);
    assert(v@[3]@ == catalog()[3]);
    assert(v@[4].args@ =~= seq!["edit"]);
    assert(v@[4]@ == catalog()[4]);
    assert(v@[5]@ == catalog()[5]);
    assert(v@[6]@ == catalog()[6]);
    assert(v@[7]@ == catalog()[7]);
    assert(v@[8]@ == catalog()[8]);
    assert(v@[9]@ == catalog()[9]);
    assert(v@[10]@ == catalog()[10]);
    assert(v@[11]@ == catalog()[11]);
    assert(v@[12]@ == catalog()[12]);
    assert(v@[13]@ == catalog()[13]);
    assert(v@.map_values(|a: Action| a@) =~= catalog());
    v
}

/// The key bindings the starter config offers, commented out: suggestions,
/// not defaults.
pub open spec fn example_binding_table() -> Seq<(&'static str, &'static str)> {
    seq![("ctrl-o", "repo-cd"), ("ctrl-t", "worktree-cd"), ("f1", "repo-open"), ("f2", "pr-open"), ("f3", "file-edit"), ("ctrl-g", "branch-checkout"), ("f7", "pr-checkout"), ("f10", "note-edit"), ("ctrl-r", "history-select"), ("up", "history-up")]
}

/// The aliases the starter config offers, commented out like the bindings.
pub open spec fn example_alias_table() -> Seq<(&'static str, &'static str)> {
    seq![("fe", "edit"), ("kl", "proc-kill"), ("i", "project-deps"), ("b", "project-build")]
}

/// The key bindings the starter config offers, as key and action id.
pub fn example_bindings() -> (r: Vec<(&'static str, &'static str)>)
    ensures
        r@ == example_binding_table(),
{
    let mut v: Vec<(&'static str, &'static str)> = Vec::new();
    v.push(("ctrl-o", "repo-cd"));
    v.push(("ctrl-t", "worktree-cd"));
    v.push(("f1", "repo-open"));
    v.push(("f2", "pr-open"));
    v.push(("f3", "file-edit"));
    v.push(("ctrl-g", "branch-checkout"));
    v.push(("f7", "pr-checkout"));
    v.push(("f10", "note-edit"));
    v.push(("ctrl-r", "history-select"));
    v.push(("up", "history-up"));
    assert(v@ =~= example_binding_table());
    v
}

/// The aliases the starter config offers, as name and action id.
pub fn example_aliases() -> (r: Vec<(&'static str, &'static str)>)
    ensures
        r@ == example_alias_table(),
{
    let mut v: Vec<(&'static str, &'static str)> = Vec::new();
    v.push(("fe", "edit"));
    v.push(("kl", "proc-kill"));
    v.push(("i", "project-deps"));
    v.push(("b", "project-build"));
    assert(v@ =~= example_alias_table());
    v
}

/// The first action of `t` that answers to `id`.
pub open spec fn named(t: Seq<ActionView>, id: Seq<char>) -> Option<ActionView>
    decreases t.len(),
{
    if t.len() == 0 {
        None
    } else if t[0].id == id {
        Some(t[0])
    } else {
        named(t.drop_first(), id)
    }
}

/// The action `id` names.
pub open spec fn action_named(id: Seq<char>) -> Option<ActionView> {
    named(catalog(), id)
}

/// The ids of every action, in catalog order.
pub open spec fn catalog_ids() -> Seq<Seq<char>> {
    catalog().map_values(|a: ActionView| a.id)
}

/// The action `id` names.
pub fn action(id: &str) -> (r: Option<Action>)
    ensures
        match r {
            Some(a) => action_named(id@) == Some(a@),
            None => action_named(id@) is None,
        },
{
    let all = actions();
    let ghost t = catalog();
    let mut i: usize = 0;
    assert(t.skip(0) =~= t);
    while i < all.len()
        invariant
            t == catalog(),
            all@.map_values(|a: Action| a@) == t,
            i <= t.len(),
            action_named(id@) == named(t.skip(i as int), id@),
        decreases t.len() - i,
    {
        assert(t.skip(i as int)[0] == all@[i as int]@);
        if same(all[i].id, id) {
            return Some(all[i]);
        }
        assert(t.skip(i as int).drop_first() =~= t.skip(i + 1));
        i += 1;
    }
    None
}

/// One key or name, and what it does.
#[derive(Debug, Clone, PartialEq, Eq)]
pub struct Bound {
    /// The key as the shell spells it, or the name the alias takes.
    pub trigger: String,
    pub action: Action,
}

impl View for Bound {
    type V = (Seq<char>, ActionView);

    open spec fn view(&self) -> (Seq<char>, ActionView) {
        (self.trigger@, self.action@)
    }
}

/// What an emitter walks: the bindings and aliases in the order they were
/// written, each already resolved to the action it names.
#[derive(Debug, Clone, PartialEq, Eq)]
pub struct Integration {
    pub bindings: Vec<Bound>,
    pub aliases: Vec<Bound>,
}

/// The actions of `s`, each id once, where it first comes.
pub open spec fn distinct_actions(s: Seq<ActionView>) -> Seq<ActionView>
    decreases s.len(),
{
    if s.len() == 0 {
        Seq::empty()
    } else {
        let p = distinct_actions(s.drop_last());
        if exists|k: int| 0 <= k < p.len() && (#[trigger] p[k]).id == s.last().id {
            p
        } else {
            p.push(s.last())
        }
    }
}

impl Integration {
    /// Every action reached by a binding, once each, in binding order. What an
    /// emitter has to define a function for.
    pub fn bound_actions(&self) -> (r: Vec<Action>)
        ensures
            r@.map_values(|a: Action| a@) == distinct_actions(
                self.bindings@.map_values(|b: Bound| b.action@),
            ),
    {
        let ghost s = self.bindings@.map_values(|b: Bound| b.action@);
        let mut seen: Vec<Action> = Vec::new();
        let mut i: usize = 0;
        while i < self.bindings.len()
            invariant
                s == self.bindings@.map_values(|b: Bound| b.action@),
                i <= s.len(),
                seen@.map_values(|a: Action| a@) == distinct_actions(s.take(i as int)),
            decreases s.len() - i,
        {
            let a = self.bindings[i].action;
            let ghost p = seen@.map_values(|x: Action| x@);
            assert(s.take(i + 1).drop_last() =~= s.take(i as int));
            assert(s.take(i + 1).last() == a@);
            let mut k: usize = 0;
            let mut found = false;
            while k < seen.len()
                invariant
                    p == seen@.map_values(|x: Action| x@),
                    k <= p.len(),
                    found == exists|j: int| 0 <= j < k && (#[trigger] p[j]).id == a@.id,
                decreases p.len() - k,
            {
                if same(seen[k].id, a.id) {
                    assert(p[k as int].id == a@.id);
                    found = true;
                }
                k += 1;
            }
            if !found {
                seen.push(a);
                assert(seen@.map_values(|x: Action| x@) =~= p.push(a@));
            }
            i += 1;
        }
        assert(s.take(s.len() as int) =~= s);
        seen
    }
}

/// What a table holds, in order: nothing where it is absent.
pub open spec fn table_of(t: Option<&Bindings>) -> Seq<(Seq<char>, Seq<char>)> {
    match t {
        Some(m) => binding_table(*m),
        None => Seq::empty(),
    }
}

/// What a table names, in the order it was written.
///
/// Unlike [`resolve`], an action nobody defines is kept rather than refused:
/// `scriv config print` reports a line the file really has.
pub fn entries(table: Option<&Bindings>) -> (r: Vec<(&str, &str)>)
    ensures
        r@.map_values(|e: (&str, &str)| (e.0@, e.1@)) == table_of(table),
{
    let mut out: Vec<(&str, &str)> = Vec::new();
    match table {
        None => {
            assert(out@.map_values(|e: (&str, &str)| (e.0@, e.1@)) =~= table_of(table));
        },
        Some(m) => {
            let es = binding_entries(m);
            let ghost t = binding_table(*m);
            let mut i: usize = 0;
            while i < es.len()
                invariant
                    t == binding_table(*m),
                    es@.map_values(|e: (&String, &String)| (e.0@, e.1@)) == t,
                    i <= t.len(),
                    out@.map_values(|e: (&str, &str)| (e.0@, e.1@)) == t.take(i as int),
                decreases t.len() - i,
            {
                let (k, v) = es[i];
                assert(t[i as int] == (k@, v@));
                let ghost prev = out@;
                out.push((k.as_str(), v.as_str()));
                assert(out@.map_values(|e: (&str, &str)| (e.0@, e.1@)) =~= prev.map_values(
                    |e: (&str, &str)| (e.0@, e.1@),
                ).push((k@, v@)));
                assert(t.take(i + 1) =~= t.take(i as int).push(t[i as int]));
                i += 1;
            }
            assert(t.take(t.len() as int) =~= t);
        },
    }
    out
}

/// What `scriv` says of an entry whose action nobody defines.
pub open spec fn refusal(what: Seq<char>, trigger: Seq<char>, id: Seq<char>) -> Seq<char> {
    "the "@ + what + " `"@ + trigger + "` names `"@ + id + "`, which is not one of: "@ + join(
        catalog_ids(),
        ", "@,
    )
}

/// A table's entries, each resolved to its action; or the first entry whose
/// action nobody defines.
pub open spec fn bound_all(es: Seq<(Seq<char>, Seq<char>)>) -> Result<
    Seq<(Seq<char>, ActionView)>,
    (Seq<char>, Seq<char>),
>
    decreases es.len(),
{
    if es.len() == 0 {
        Ok(Seq::empty())
    } else {
        match bound_all(es.drop_last()) {
            Err(e) => Err(e),
            Ok(p) => match action_named(es.last().1) {
                None => Err(es.last()),
                Some(a) => Ok(p.push((es.last().0, a))),
            },
        }
    }
}

/// The ids of every action, joined by `, `.
fn known_ids() -> (r: String)
    ensures
        r@ == join(catalog_ids(), ", "@),
{
    let all = actions();
    let mut ids: Vec<String> = Vec::new();
    let mut i: usize = 0;
    while i < all.len()
        invariant
            all@.map_values(|a: Action| a@) == catalog(),
            i <= all@.len(),
            ids@.map_values(|s: String| s@) == catalog_ids().take(i as int),
        decreases all@.len() - i,
    {
        let ghost prev = ids@;
        ids.push(String::from_str(all[i].id));
        assert(ids@.map_values(|s: String| s@) =~= prev.map_values(|s: String| s@).push(
            all@[i as int].id@,
        ));
        assert(catalog_ids().take(i + 1) =~= catalog_ids().take(i as int).push(catalog()[i as int].id));
        i += 1;
    }
    assert(catalog_ids().take(all@.len() as int) =~= catalog_ids());
    join_strings(&ids, ", ")
}

/// Resolve each entry of a table; `what` names the table in the refusal.
fn bind(what: &str, table: Option<&Bindings>) -> (r: Result<Vec<Bound>, String>)
    ensures
        match r {
            Ok(v) => bound_all(table_of(table)) == Ok::<_, (Seq<char>, Seq<char>)>(
                v@.map_values(|b: Bound| b@),
            ),
            Err(e) => bound_all(table_of(table)) is Err && e@ == refusal(
                what@,
                bound_all(table_of(table))->Err_0.0,
                bound_all(table_of(table))->Err_0.1,
            ),
        },
{
    let es = entries(table);
    let ghost t = table_of(table);
    let mut out: Vec<Bound> = Vec::new();
    let mut i: usize = 0;
    assert(t.take(0) =~= Seq::<(Seq<char>, Seq<char>)>::empty());
    assert(out@.map_values(|b: Bound| b@) =~= Seq::<(Seq<char>, ActionView)>::empty());
    while i < es.len()
        invariant
            t == table_of(table),
            es@.map_values(|e: (&str, &str)| (e.0@, e.1@)) == t,
            i <= t.len(),
            bound_all(t.take(i as int)) == Ok::<_, (Seq<char>, Seq<char>)>(
                out@.map_values(|b: Bound| b@),
            ),
        decreases t.len() - i,
    {
        let (trigger, id) = es[i];
        assert(t[i as int] == (trigger@, id@));
        assert(t.take(i + 1).drop_last() =~= t.take(i as int));
        assert(t.take(i + 1).last() == (trigger@, id@));
        match action(id) {
            Some(a) => {
                let ghost prev = out@;
                out.push(Bound { trigger: String::from_str(trigger), action: a });
                assert(out@.map_values(|b: Bound| b@) =~= prev.map_values(|b: Bound| b@).push(
                    (trigger@, a@),
                ));
            },
            None => {
                proof {
                    lemma_bound_all_err_stays(t, i as int + 1);
                }
                let mut e = String::from_str("the ");
                e.append(what);
                e.append(" `");
                e.append(trigger);
                e.append("` names `");
                e.append(id);
                e.append("`, which is not one of: ");
                let ids = known_ids();
                e.append(ids.as_str());
                return Err(e);
            },
        }
        i += 1;
    }
    assert(t.take(t.len() as int) =~= t);
    Ok(out)
}

/// An entry refused in a prefix of a table is the refusal of the whole table.
proof fn lemma_bound_all_err_stays(es: Seq<(Seq<char>, Seq<char>)>, n: int)
    requires
        0 <= n <= es.len(),
        bound_all(es.take(n)) is Err,
    ensures
        bound_all(es) == bound_all(es.take(n)),
    decreases es.len() - n,
{
    if n < es.len() {
        assert(es.take(n + 1).drop_last() =~= es.take(n));
        lemma_bound_all_err_stays(es, n + 1);
    } else {
        assert(es.take(n) =~= es);
    }
}

/// What resolving a `[shell]` configuration gives: the bindings and the
/// aliases, each resolved; or the refusal of the first entry that names no
/// action, the bindings looked at before the aliases.
pub open spec fn resolved(c: ShellConfig) -> Result<
    (Seq<(Seq<char>, ActionView)>, Seq<(Seq<char>, ActionView)>),
    Seq<char>,
> {
    let b = match c.bindings {
        Some(m) => binding_table(m),
        None => Seq::empty(),
    };
    let a = match c.aliases {
        Some(m) => binding_table(m),
        None => Seq::empty(),
    };
    match bound_all(b) {
        Err(e) => Err(refusal("binding"@, e.0, e.1)),
        Ok(bs) => match bound_all(a) {
            Err(e) => Err(refusal("alias"@, e.0, e.1)),
            Ok(als) => Ok((bs, als)),
        },
    }
}

/// Resolve the configuration into what `scriv init` will emit.
///
/// The tables are the whole of it: an absent one binds nothing, and a key left
/// out of a present one is a key scriv does not touch. An action nobody
/// defines is an error rather than a line quietly left out.
pub fn resolve(config: &ShellConfig) -> (r: Result<Integration, String>)
    ensures
        match r {
            Ok(ig) => resolved(*config) == Ok::<_, Seq<char>>(
                (ig.bindings@.map_values(|b: Bound| b@), ig.aliases@.map_values(|b: Bound| b@)),
            ),
            Err(e) => resolved(*config) == Err::<
                (Seq<(Seq<char>, ActionView)>, Seq<(Seq<char>, ActionView)>),
                _,
            >(e@),
        },
{
    let b = match &config.bindings {
        Some(m) => Some(m),
        None => None,
    };
    let a = match &config.aliases {
        Some(m) => Some(m),
        None => None,
    };
    let bindings = match bind("binding", b) {
        Ok(v) => v,
        Err(e) => {
            return Err(e);
        },
    };
    let aliases = match bind("alias", a) {
        Ok(v) => v,
        Err(e) => {
            return Err(e);
        },
    };
    Ok(Integration { bindings, aliases })
}

/// No two actions answer to one name: an id picks out one action.
pub proof fn lemma_ids_distinct()
    ensures
        forall|i: int, j: int|
            0 <= i < j < catalog().len() ==> (#[trigger] catalog()[i]).id != (#[trigger] catalog()[j]).id,
{
    reveal_strlit("repo-cd");
    reveal_strlit("worktree-cd");
    reveal_strlit("repo-open");
    reveal_strlit("file-edit");
    reveal_strlit("edit");
    reveal_strlit("note-edit");
    reveal_strlit("branch-checkout");
    reveal_strlit("pr-checkout");
    reveal_strlit("pr-open");
    reveal_strlit("proc-kill");
    reveal_strlit("project-deps");
    reveal_strlit("project-build");
    reveal_strlit("history-select");
    reveal_strlit("history-up");
    let t = catalog();
    assert(t[0].id.len() == 7 && t[0].id[0] == 'r');
    assert(t[1].id.len() == 11 && t[1].id[0] == 'w');
    assert(t[2].id.len() == 9 && t[2].id[0] == 'r');
    assert(t[3].id.len() == 9 && t[3].id[0] == 'f');
    assert(t[4].id.len() == 4 && t[4].id[0] == 'e');
    assert(t[5].id.len() == 9 && t[5].id[0] == 'n');
    assert(t[6].id.len() == 15 && t[6].id[0] == 'b');
    assert(t[7].id.len() == 11 && t[7].id[0] == 'p');
    assert(t[8].id.len() == 7 && t[8].id[0] == 'p');
    assert(t[9].id.len() == 9 && t[9].id[0] == 'p');
    assert(t[10].id.len() == 12 && t[10].id[0] == 'p');
    assert(t[11].id.len() == 13 && t[11].id[0] == 'p');
    assert(t[12].id.len() == 14 && t[12].id[0] == 'h');
    assert(t[13].id.len() == 10 && t[13].id[0] == 'h');
    assert forall|i: int, j: int| 0 <= i < j < t.len() implies (#[trigger] t[i]).id != (#[trigger] t[j]).id by {
        assert(i == 0 || i == 1 || i == 2 || i == 3 || i == 4 || i == 5 || i == 6 || i == 7 || i == 8 || i == 9 || i == 10 || i == 11 || i == 12 || i == 13);
        assert(j == 0 || j == 1 || j == 2 || j == 3 || j == 4 || j == 5 || j == 6 || j == 7 || j == 8 || j == 9 || j == 10 || j == 11 || j == 12 || j == 13);
        assert(t[i].id.len() != t[j].id.len() || t[i].id[0] != t[j].id[0]);
    }
}

/// Every action runs a command and says what it does.
pub proof fn lemma_every_action_runs_a_command()
    ensures
        forall|i: int|
            0 <= i < catalog().len() ==> (#[trigger] catalog()[i]).args.len() > 0
                && catalog()[i].description.len() > 0,
{
        reveal_strlit("Select a repository and cd into it");
        reveal_strlit("Select a git worktree and cd into it");
        reveal_strlit("Open this repository on GitHub, or select one");
        reveal_strlit("Select a tracked file and open it in $EDITOR");
        reveal_strlit("Find a file, fuzzy-select it, open it in $EDITOR");
        reveal_strlit("Find a note by name or by what it says, and open it");
        reveal_strlit("Select a git branch and check it out");
        reveal_strlit("Select a GitHub pull request and check it out");
        reveal_strlit("Open this branch's pull request, or the list");
        reveal_strlit("Fuzzy-select running processes and kill them");
        reveal_strlit("Install this project's dependencies");
        reveal_strlit("Build this project");
        reveal_strlit("Fuzzy-select a past command onto the command line");
        reveal_strlit("Search history, or move up within a multi-line command");
}

/// Where `t` holds an action with `id`, `named` finds one.
proof fn lemma_named_found(t: Seq<ActionView>, id: Seq<char>, k: int)
    requires
        0 <= k < t.len(),
        t[k].id == id,
    ensures
        named(t, id) is Some,
        named(t, id)->0.id == id,
    decreases t.len(),
{
    if t[0].id != id {
        lemma_named_found(t.drop_first(), id, k - 1);
    }
}

/// Every key binding and alias the starter config offers names an action that
/// exists, so uncommenting the block gives a shell rather than an error.
pub proof fn lemma_examples_name_actions()
    ensures
        forall|i: int|
            0 <= i < example_binding_table().len() ==> action_named(
                (#[trigger] example_binding_table()[i]).1@,
            ) is Some,
        forall|i: int|
            0 <= i < example_alias_table().len() ==> action_named(
                (#[trigger] example_alias_table()[i]).1@,
            ) is Some,
{
    assert forall|i: int| 0 <= i < example_binding_table().len() implies action_named(
        (#[trigger] example_binding_table()[i]).1@,
    ) is Some by {
        let k = choose|k: int| 0 <= k < catalog().len() && catalog()[k].id == example_binding_table()[i].1@;
        lemma_named_found(catalog(), example_binding_table()[i].1@, k);
    }
    assert forall|i: int| 0 <= i < example_alias_table().len() implies action_named(
        (#[trigger] example_alias_table()[i]).1@,
    ) is Some by {
        let k = choose|k: int| 0 <= k < catalog().len() && catalog()[k].id == example_alias_table()[i].1@;
        lemma_named_found(catalog(), example_alias_table()[i].1@, k);
    }
}

/// A table resolves exactly when every entry names an action; resolved, it
/// keeps the table's order, each trigger with the action its id names.
pub proof fn lemma_bound_all_ok(es: Seq<(Seq<char>, Seq<char>)>)
    ensures
        bound_all(es) is Ok <==> forall|i: int| 0 <= i < es.len() ==> action_named(#[trigger] es[i].1) is Some,
        bound_all(es) is Ok ==> bound_all(es)->Ok_0.len() == es.len() && forall|i: int|
            0 <= i < es.len() ==> (#[trigger] bound_all(es)->Ok_0[i]) == (es[i].0, action_named(es[i].1)->0),
    decreases es.len(),
{
    if es.len() > 0 {
        let p = es.drop_last();
        lemma_bound_all_ok(p);
        assert(forall|i: int| 0 <= i < p.len() ==> p[i] == es[i]);
        if bound_all(p) is Ok && action_named(es.last().1) is Some {
            assert forall|i: int| 0 <= i < es.len() implies action_named(#[trigger] es[i].1) is Some by {
                if i < p.len() {
                    assert(p[i] == es[i]);
                }
            }
        } else if bound_all(p) is Err {
            let j = choose|j: int| 0 <= j < p.len() && !(action_named(#[trigger] p[j].1) is Some);
            assert(es[j] == p[j]);
        }
    }
}

/// An action bound to several keys is defined once: what `bound_actions`
/// keeps has no id twice, and every bound id is in it.
#[verifier::spinoff_prover]
#[verifier::rlimit(30)]
pub proof fn lemma_distinct_actions(s: Seq<ActionView>)
    ensures
        forall|i: int, j: int|
            0 <= i < j < distinct_actions(s).len() ==> (#[trigger] distinct_actions(s)[i]).id
                != (#[trigger] distinct_actions(s)[j]).id,
        forall|i: int|
            0 <= i < s.len() ==> exists|k: int|
                0 <= k < distinct_actions(s).len() && (#[trigger] distinct_actions(s)[k]).id == (#[trigger] s[i]).id,
        forall|k: int| 0 <= k < distinct_actions(s).len() ==> s.contains(#[trigger] distinct_actions(s)[k]),
    decreases s.len(),
{
    if s.len() > 0 {
        let p = s.drop_last();
        lemma_distinct_actions(p);
        let d = distinct_actions(s);
        let dp = distinct_actions(p);
        assert forall|i: int| 0 <= i < s.len() implies exists|k: int|
            0 <= k < d.len() && (#[trigger] d[k]).id == (#[trigger] s[i]).id by {
            if i < p.len() {
                assert(p[i] == s[i]);
                let k = choose|k: int| 0 <= k < dp.len() && (#[trigger] dp[k]).id == p[i].id;
                assert(d[k] == dp[k]);
            } else if exists|k: int| 0 <= k < dp.len() && (#[trigger] dp[k]).id == s.last().id {
                let k = choose|k: int| 0 <= k < dp.len() && (#[trigger] dp[k]).id == s.last().id;
                assert(d[k] == dp[k]);
            } else {
                assert(d[dp.len() as int] == s.last());
            }
        }
        assert forall|k: int| 0 <= k < d.len() implies s.contains(#[trigger] d[k]) by {
            if k < dp.len() {
                assert(d[k] == dp[k]);
                let m = choose|m: int| 0 <= m < p.len() && p[m] == dp[k];
                assert(s[m] == p[m]);
            } else {
                assert(s[s.len() - 1] == d[k]);
            }
        }
    }
}

/// Nothing is bound until the config says so: with neither table present,
/// resolving binds no key and no name.
pub proof fn lemma_empty_config_binds_nothing(c: ShellConfig)
    requires
        c.bindings is None,
        c.aliases is None,
    ensures
        resolved(c) == Ok::<_, Seq<char>>(
            (Seq::<(Seq<char>, ActionView)>::empty(), Seq::<(Seq<char>, ActionView)>::empty()),
        ),
{
}

} // verus!
