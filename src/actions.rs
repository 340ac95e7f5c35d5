//! The action registry: namespaced actions that plugins add to the command
//! palette, kept until their plugin is unloaded.

use vstd::prelude::*;
use crate::text::{
    chars_of, contains_chars, has_substring, lower_of, lowercase, same_text,
};

verus! {

/// A palette action contributed by a plugin.
#[derive(Debug, Clone)]
pub struct Action {
    /// Identifier of the form `<plugin>.<name>`.
    pub id: String,
    /// Display name.
    pub name: String,
    /// Description.
    pub description: String,
    /// Category.
    pub category: String,
    /// Keyboard shortcut.
    pub shortcut: Option<String>,
    /// Icon name.
    pub icon: Option<String>,
    /// Identifier of the owning plugin.
    pub plugin_id: String,
}

/// The characters of an optional string.
pub open spec fn opt_view(s: Option<String>) -> Option<Seq<char>> {
    match s {
        Some(t) => Some(t@),
        None => None,
    }
}

/// Whether `a` and `b` hold the same text in every field.
pub open spec fn same_action(a: Action, b: Action) -> bool {
    &&& a.id@ == b.id@
    &&& a.name@ == b.name@
    &&& a.description@ == b.description@
    &&& a.category@ == b.category@
    &&& opt_view(a.shortcut) == opt_view(b.shortcut)
    &&& opt_view(a.icon) == opt_view(b.icon)
    &&& a.plugin_id@ == b.plugin_id@
}

/// Whether `s` and `t` hold the same actions, in the same order.
pub open spec fn same_actions(s: Seq<Action>, t: Seq<Action>) -> bool {
    s.len() == t.len() && forall|i: int| 0 <= i < s.len() ==> same_action(#[trigger] s[i], t[i])
}

/// Whether `c` may stand in a segment of an action identifier.
pub open spec fn id_char(c: char) -> bool {
    ('a' <= c && c <= 'z') || ('A' <= c && c <= 'Z') || ('0' <= c && c <= '9') || c == '_' || c == '-'
}

/// Whether `s` is two non-empty segments of letters, digits, `_` and `-`
/// joined by one dot.
pub open spec fn valid_action_id(s: Seq<char>) -> bool {
    exists|d: int|
        0 < d < s.len() - 1 && s[d] == '.' && forall|i: int| 0 <= i < s.len() && i != d ==> #[trigger] id_char(s[i])
}

/// Whether some action of `s` has identifier `id`.
pub open spec fn has_id(s: Seq<Action>, id: Seq<char>) -> bool {
    exists|i: int| 0 <= i < s.len() && (#[trigger] s[i]).id@ == id
}

/// The actions of `s` owned by plugin `p`, in order.
pub open spec fn owned_by(s: Seq<Action>, p: Seq<char>) -> Seq<Action>
    decreases s.len(),
{
    if s.len() == 0 {
        Seq::empty()
    } else if s.last().plugin_id@ == p {
        owned_by(s.drop_last(), p).push(s.last())
    } else {
        owned_by(s.drop_last(), p)
    }
}

/// The actions of `s` not owned by plugin `p`, in order.
pub open spec fn not_owned_by(s: Seq<Action>, p: Seq<char>) -> Seq<Action>
    decreases s.len(),
{
    if s.len() == 0 {
        Seq::empty()
    } else if s.last().plugin_id@ != p {
        not_owned_by(s.drop_last(), p).push(s.last())
    } else {
        not_owned_by(s.drop_last(), p)
    }
}

/// Whether action `a` matches the lower-cased query `q`: its lower-cased
/// name, description or category contains `q`.
pub open spec fn matches_query(a: Action, q: Seq<char>) -> bool {
    has_substring(lower_of(a.name@), q) || has_substring(lower_of(a.description@), q)
        || has_substring(lower_of(a.category@), q)
}

/// The actions of `s` that match the lower-cased query `q`, in order.
pub open spec fn search_in(s: Seq<Action>, q: Seq<char>) -> Seq<Action>
    decreases s.len(),
{
    if s.len() == 0 {
        Seq::empty()
    } else if matches_query(s.last(), q) {
        search_in(s.drop_last(), q).push(s.last())
    } else {
        search_in(s.drop_last(), q)
    }
}

/// Number of distinct plugin identifiers among the actions of `s`.
pub open spec fn plugin_total(s: Seq<Action>) -> nat
    decreases s.len(),
{
    if s.len() == 0 {
        0
    } else if exists|j: int| 0 <= j < s.len() - 1 && (#[trigger] s[j]).plugin_id@ == s.last().plugin_id@ {
        plugin_total(s.drop_last())
    } else {
        plugin_total(s.drop_last()) + 1
    }
}

/// The actions of `s` in category `c`, in order.
pub open spec fn in_category(s: Seq<Action>, c: Seq<char>) -> Seq<Action>
    decreases s.len(),
{
    if s.len() == 0 {
        Seq::empty()
    } else if s.last().category@ == c {
        in_category(s.drop_last(), c).push(s.last())
    } else {
        in_category(s.drop_last(), c)
    }
}

/// Whether some action of `s` is in category `c`.
pub open spec fn has_category(s: Seq<Action>, c: Seq<char>) -> bool {
    exists|i: int| 0 <= i < s.len() && (#[trigger] s[i]).category@ == c
}

/// Actions grouped by category, each category once.
#[derive(Debug)]
pub struct CategoryGroups {
    /// Each category with its actions.
    pub groups: Vec<(String, Vec<Action>)>,
}

/// Whether `g` names category `c`.
pub open spec fn group_named(g: Seq<(String, Vec<Action>)>, c: Seq<char>) -> bool {
    exists|i: int| 0 <= i < g.len() && (#[trigger] g[i]).0@ == c
}

impl CategoryGroups {
    /// No category is named twice.
    pub open spec fn wf(&self) -> bool {
        forall|i: int, j: int| 0 <= i < j < self.groups@.len() ==> (#[trigger] self.groups@[i]).0@ != (#[trigger] self.groups@[j]).0@
    }

    /// Number of categories.
    pub fn len(&self) -> (r: usize)
        ensures
            r == self.groups@.len(),
    {
        self.groups.len()
    }

    /// Whether there is no category.
    pub fn is_empty(&self) -> (r: bool)
        ensures
            r == (self.groups@.len() == 0),
    {
        self.groups.len() == 0
    }

    /// The position of category `category`.
    fn position_of(&self, category: &str) -> (r: Option<usize>)
        ensures
            r matches Some(k) ==> k < self.groups@.len() && self.groups@[k as int].0@ == category@,
            r is None <==> !group_named(self.groups@, category@),
    {
        let mut i: usize = 0;
        while i < self.groups.len()
            invariant
                i <= self.groups@.len(),
                forall|k: int| 0 <= k < i ==> (#[trigger] self.groups@[k]).0@ != category@,
            decreases self.groups@.len() - i,
        {
            if same_text(self.groups[i].0.as_str(), category) {
                return Some(i);
            }
            i = i + 1;
        }
        None
    }

    /// The actions of category `category`.
    pub fn get(&self, category: &str) -> (r: Option<&Vec<Action>>)
        ensures
            r is None <==> !group_named(self.groups@, category@),
            r matches Some(v) ==> exists|k: int| 0 <= k < self.groups@.len() && (#[trigger] self.groups@[k]).0@ == category@
                && self.groups@[k].1 == *v,
    {
        match self.position_of(category) {
            Some(k) => Some(&self.groups[k].1),
            None => None,
        }
    }
}

/// Why a registry operation failed.
#[derive(Debug)]
pub enum ActionError {
    /// An action with this identifier is already registered.
    ActionExists(String),
    /// No action has this identifier.
    ActionNotFound(String),
    /// No plugin has this identifier.
    PluginNotFound(String),
    /// The identifier is not of the form `<plugin>.<name>`.
    InvalidActionId(String),
    /// Running the action failed.
    ExecutionFailed(String),
}

/// The actions known to the palette, in order of registration, with unique
/// identifiers.
#[derive(Debug)]
pub struct ActionRegistry {
    /// The registered actions.
    pub actions: Vec<Action>,
}

/// A copy of an optional string.
fn copy_opt(s: &Option<String>) -> (r: Option<String>)
    ensures
        opt_view(r) == opt_view(*s),
{
    match s {
        Some(t) => Some(t.clone()),
        None => None,
    }
}

impl Action {
    /// An action without shortcut or icon.
    pub fn new(id: String, name: String, description: String, category: String, plugin_id: String) -> (a: Action)
        ensures
            a == (Action { id, name, description, category, shortcut: None, icon: None, plugin_id }),
    {
        Action { id, name, description, category, shortcut: None, icon: None, plugin_id }
    }

    /// This action with keyboard shortcut `shortcut`.
    pub fn with_shortcut(self, shortcut: String) -> (a: Action)
        ensures
            a == (Action { shortcut: Some(shortcut), ..self }),
    {
        Action { shortcut: Some(shortcut), ..self }
    }

    /// This action with icon `icon`.
    pub fn with_icon(self, icon: String) -> (a: Action)
        ensures
            a == (Action { icon: Some(icon), ..self }),
    {
        Action { icon: Some(icon), ..self }
    }

    /// A copy of this action.
    pub fn copy(&self) -> (a: Action)
        ensures
            same_action(a, *self),
    {
        Action {
            id: self.id.clone(),
            name: self.name.clone(),
            description: self.description.clone(),
            category: self.category.clone(),
            shortcut: copy_opt(&self.shortcut),
            icon: copy_opt(&self.icon),
            plugin_id: self.plugin_id.clone(),
        }
    }

    /// The name, followed by the shortcut in parentheses when there is one.
    pub fn display_string(&self) -> (r: String)
        ensures
            r@ == match self.shortcut {
                Some(s) => self.name@ + seq![' ', '('] + s@ + seq![')'],
                None => self.name@,
            },
    {
        match &self.shortcut {
            Some(s) => {
                let mut v = chars_of(self.name.as_str());
                v.push(' ');
                v.push('(');
                let t = chars_of(s.as_str());
                let mut i: usize = 0;
                let ghost base = v@;
                while i < t.len()
                    invariant
                        i <= t@.len(),
                        v@ == base + t@.subrange(0, i as int),
                    decreases t@.len() - i,
                {
                    v.push(t[i]);
                    i = i + 1;
                    assert(v@ =~= base + t@.subrange(0, i as int));
                }
                v.push(')');
                assert(t@.subrange(0, t@.len() as int) =~= t@);
                assert(v@ =~= self.name@ + seq![' ', '('] + s@ + seq![')']);
                crate::text::string_of(&v)
            },
            None => self.name.clone(),
        }
    }
}

/// Copies of the actions of `s`.
fn copy_all(s: &Vec<Action>) -> (r: Vec<Action>)
    ensures
        same_actions(r@, s@),
{
    let mut r: Vec<Action> = Vec::new();
    let mut i: usize = 0;
    while i < s.len()
        invariant
            i <= s@.len(),
            same_actions(r@, s@.subrange(0, i as int)),
        decreases s@.len() - i,
    {
        r.push(s[i].copy());
        i = i + 1;
    }
    r
}

impl ActionRegistry {
    /// Identifiers are unique.
    pub open spec fn wf(&self) -> bool {
        forall|i: int, j: int| 0 <= i < j < self.actions@.len() ==> (#[trigger] self.actions@[i]).id@ != (#[trigger] self.actions@[j]).id@
    }

    /// An empty registry.
    pub fn new() -> (r: ActionRegistry)
        ensures
            r.wf(),
            r.actions@.len() == 0,
    {
        ActionRegistry { actions: Vec::new() }
    }

    /// Whether `action_id` is two non-empty segments of ASCII letters,
    /// digits, `_` and `-` joined by one dot.
    pub fn is_valid_action_id(action_id: &str) -> (r: bool)
        ensures
            r == valid_action_id(action_id@),
    {
        let s = chars_of(action_id);
        let mut i: usize = 0;
        let mut dot: Option<usize> = None;
        let mut extra_dot = false;
        let mut all_ok = true;
        while i < s.len()
            invariant
                s@ == action_id@,
                i <= s@.len(),
                all_ok == (forall|k: int| 0 <= k < i ==> id_char(#[trigger] s@[k]) || s@[k] == '.'),
                dot matches Some(d) ==> d < i && s@[d as int] == '.' && forall|k: int| 0 <= k < d ==> #[trigger] s@[k] != '.',
                dot is None ==> forall|k: int| 0 <= k < i ==> #[trigger] s@[k] != '.',
                extra_dot == (dot matches Some(d) && exists|k: int| d < k < i && #[trigger] s@[k] == '.'),
            decreases s@.len() - i,
        {
            let c = s[i];
            let ok = ('a' <= c && c <= 'z') || ('A' <= c && c <= 'Z') || ('0' <= c && c <= '9') || c == '_' || c == '-';
            if !ok && c != '.' {
                all_ok = false;
            }
            if c == '.' {
                match dot {
                    Some(_) => {
                        extra_dot = true;
                    },
                    None => {
                        dot = Some(i);
                    },
                }
            }
            i = i + 1;
        }
        let r = match dot {
            Some(d) => all_ok && !extra_dot && 0 < d && d + 1 < s.len(),
            None => false,
        };
        proof {
            if r {
                let d = dot->0 as int;
                assert forall|k: int| 0 <= k < s@.len() && k != d implies #[trigger] id_char(s@[k]) by {
                    if s@[k] == '.' {
                        assert(d < k);
                    }
                }
            }
            if valid_action_id(action_id@) {
                let d = choose|d: int|
                    0 < d < s@.len() - 1 && s@[d] == '.' && forall|i: int| 0 <= i < s@.len() && i != d ==> #[trigger] id_char(s@[i]);
                assert(!id_char('.'));
                assert(dot is Some);
                assert(dot->0 == d);
                if extra_dot {
                    let k = choose|k: int| d < k < s@.len() && #[trigger] s@[k] == '.';
                    assert(id_char(s@[k]));
                }
                assert forall|k: int| 0 <= k < s@.len() implies id_char(#[trigger] s@[k]) || s@[k] == '.' by {
                    if k != d {
                        assert(id_char(s@[k]));
                    }
                }
            }
        }
        r
    }

    /// The position of the action with identifier `id`.
    fn position_of(&self, id: &str) -> (r: Option<usize>)
        ensures
            r matches Some(k) ==> k < self.actions@.len() && self.actions@[k as int].id@ == id@,
            r is None <==> !has_id(self.actions@, id@),
    {
        let mut i: usize = 0;
        while i < self.actions.len()
            invariant
                i <= self.actions@.len(),
                forall|k: int| 0 <= k < i ==> (#[trigger] self.actions@[k]).id@ != id@,
            decreases self.actions@.len() - i,
        {
            if same_text(self.actions[i].id.as_str(), id) {
                return Some(i);
            }
            i = i + 1;
        }
        None
    }

    /// Adds `action`. Fails, changing nothing, with `InvalidActionId` when
    /// its identifier is malformed, else with `ActionExists` when it is taken.
    pub fn register_action(&mut self, action: Action) -> (r: Result<(), ActionError>)
        requires
            old(self).wf(),
        ensures
            final(self).wf(),
            !valid_action_id(action.id@) ==> (r matches Err(ActionError::InvalidActionId(m)) && m@ == action.id@),
            valid_action_id(action.id@) && has_id(old(self).actions@, action.id@)
                ==> (r matches Err(ActionError::ActionExists(m)) && m@ == action.id@),
            r is Err ==> final(self).actions@ == old(self).actions@,
            r is Ok <==> valid_action_id(action.id@) && !has_id(old(self).actions@, action.id@),
            r is Ok ==> final(self).actions@ == old(self).actions@.push(action),
    {
        if !ActionRegistry::is_valid_action_id(action.id.as_str()) {
            return Err(ActionError::InvalidActionId(action.id.clone()));
        }
        match self.position_of(action.id.as_str()) {
            Some(_) => Err(ActionError::ActionExists(action.id.clone())),
            None => {
                self.actions.push(action);
                Ok(())
            },
        }
    }

    /// Removes the action with identifier `action_id`; fails with
    /// `ActionNotFound`, changing nothing, when there is none.
    pub fn unregister_action(&mut self, action_id: &str) -> (r: Result<(), ActionError>)
        requires
            old(self).wf(),
        ensures
            final(self).wf(),
            r is Err <==> !has_id(old(self).actions@, action_id@),
            r is Err ==> (r matches Err(ActionError::ActionNotFound(m)) && m@ == action_id@)
                && final(self).actions@ == old(self).actions@,
            r is Ok ==> exists|k: int| 0 <= k < old(self).actions@.len()
                && (#[trigger] old(self).actions@[k]).id@ == action_id@
                && final(self).actions@ == old(self).actions@.remove(k),
    {
        match self.position_of(action_id) {
            Some(k) => {
                self.actions.remove(k);
                assert(old(self).actions@[k as int].id@ == action_id@);
                Ok(())
            },
            None => Err(ActionError::ActionNotFound(action_id.to_owned())),
        }
    }

    /// Copies of all actions, in order of registration.
    pub fn list_actions(&self) -> (r: Vec<Action>)
        ensures
            same_actions(r@, self.actions@),
    {
        copy_all(&self.actions)
    }

    /// Copies of the actions whose name, description or category, lower
    /// cased, contains the lower-cased `query`.
    pub fn search_actions(&self, query: &str) -> (r: Vec<Action>)
        ensures
            same_actions(r@, search_in(self.actions@, lower_of(query@))),
    {
        let q = lowercase(query);
        let qc = chars_of(q.as_str());
        let mut r: Vec<Action> = Vec::new();
        let mut i: usize = 0;
        while i < self.actions.len()
            invariant
                i <= self.actions@.len(),
                qc@ == lower_of(query@),
                same_actions(r@, search_in(self.actions@.subrange(0, i as int), qc@)),
            decreases self.actions@.len() - i,
        {
            let a = &self.actions[i];
            let name = chars_of(lowercase(a.name.as_str()).as_str());
            let desc = chars_of(lowercase(a.description.as_str()).as_str());
            let cat = chars_of(lowercase(a.category.as_str()).as_str());
            let hit = contains_chars(&name, &qc) || contains_chars(&desc, &qc) || contains_chars(&cat, &qc);
            proof {
                let pre = self.actions@.subrange(0, i + 1);
                assert(pre.drop_last() =~= self.actions@.subrange(0, i as int));
                assert(pre.last() == *a);
            }
            if hit {
                r.push(a.copy());
            }
            i = i + 1;
        }
        assert(self.actions@.subrange(0, self.actions@.len() as int) =~= self.actions@);
        r
    }

    /// Copies of the actions of plugin `plugin_id`, in order of registration.
    pub fn get_plugin_actions(&self, plugin_id: &str) -> (r: Vec<Action>)
        ensures
            same_actions(r@, owned_by(self.actions@, plugin_id@)),
    {
        let mut r: Vec<Action> = Vec::new();
        let mut i: usize = 0;
        while i < self.actions.len()
            invariant
                i <= self.actions@.len(),
                same_actions(r@, owned_by(self.actions@.subrange(0, i as int), plugin_id@)),
            decreases self.actions@.len() - i,
        {
            let a = &self.actions[i];
            proof {
                let pre = self.actions@.subrange(0, i + 1);
                assert(pre.drop_last() =~= self.actions@.subrange(0, i as int));
                assert(pre.last() == *a);
            }
            if same_text(a.plugin_id.as_str(), plugin_id) {
                r.push(a.copy());
            }
            i = i + 1;
        }
        assert(self.actions@.subrange(0, self.actions@.len() as int) =~= self.actions@);
        r
    }

    /// The action with identifier `action_id`.
    pub fn get_action(&self, action_id: &str) -> (r: Option<&Action>)
        ensures
            r is None <==> !has_id(self.actions@, action_id@),
            r matches Some(a) ==> exists|k: int| 0 <= k < self.actions@.len() && #[trigger] self.actions@[k] == *a
                && a.id@ == action_id@,
    {
        match self.position_of(action_id) {
            Some(k) => Some(&self.actions[k]),
            None => None,
        }
    }

    /// Removes every action of plugin `plugin_id`, keeping the order of the
    /// others.
    pub fn unregister_plugin_actions(&mut self, plugin_id: &str) -> (r: Result<(), ActionError>)
        requires
            old(self).wf(),
        ensures
            final(self).wf(),
            r is Ok,
            final(self).actions@ == not_owned_by(old(self).actions@, plugin_id@),
    {
        let mut rest: Vec<Action> = Vec::new();
        std::mem::swap(&mut rest, &mut self.actions);
        let ghost all = rest@;
        let total = rest.len();
        let mut k: usize = 0;
        while rest.len() > 0
            invariant
                total == all.len(),
                all == old(self).actions@,
                k + rest@.len() == all.len(),
                rest@ == all.subrange(k as int, all.len() as int),
                self.actions@ == not_owned_by(all.subrange(0, k as int), plugin_id@),
            decreases rest@.len(),
        {
            let a = rest.remove(0);
            proof {
                let pre = all.subrange(0, k + 1);
                assert(pre.drop_last() =~= all.subrange(0, k as int));
                assert(pre.last() == a);
            }
            if !same_text(a.plugin_id.as_str(), plugin_id) {
                self.actions.push(a);
            }
            k = k + 1;
            assert(rest@ =~= all.subrange(k as int, all.len() as int));
        }
        assert(all.subrange(0, all.len() as int) =~= all);
        proof {
            lemma_not_owned_by_sub(all, plugin_id@);
        }
        Ok(())
    }

    /// The actions grouped by category: one group per category in use,
    /// holding copies of its actions in order of registration.
    pub fn actions_by_category(&self) -> (r: CategoryGroups)
        ensures
            r.wf(),
            forall|c: Seq<char>| group_named(r.groups@, c) <==> has_category(self.actions@, c),
            forall|k: int| 0 <= k < r.groups@.len() ==> same_actions(
                (#[trigger] r.groups@[k]).1@,
                in_category(self.actions@, r.groups@[k].0@),
            ),
    {
        let mut r = CategoryGroups { groups: Vec::new() };
        let mut i: usize = 0;
        while i < self.actions.len()
            invariant
                i <= self.actions@.len(),
                r.wf(),
                forall|c: Seq<char>| group_named(r.groups@, c) <==> has_category(self.actions@.subrange(0, i as int), c),
                forall|k: int| 0 <= k < r.groups@.len() ==> same_actions(
                    (#[trigger] r.groups@[k]).1@,
                    in_category(self.actions@.subrange(0, i as int), r.groups@[k].0@),
                ),
            decreases self.actions@.len() - i,
        {
            let a = &self.actions[i];
            let ghost pre = self.actions@.subrange(0, i as int);
            let ghost next = self.actions@.subrange(0, i + 1);
            proof {
                assert(next.drop_last() =~= pre);
                assert(next.last() == *a);
                assert forall|c: Seq<char>| has_category(next, c) <==> (has_category(pre, c) || a.category@ == c) by {
                    if has_category(next, c) {
                        let t = choose|t: int| 0 <= t < next.len() && (#[trigger] next[t]).category@ == c;
                        if t < i {
                            assert(pre[t] == next[t]);
                        }
                    }
                    if has_category(pre, c) {
                        let t = choose|t: int| 0 <= t < pre.len() && (#[trigger] pre[t]).category@ == c;
                        assert(pre[t] == next[t]);
                    }
                    if a.category@ == c {
                        assert(next[i as int] == *a);
                    }
                }
            }
            let ghost before = r.groups@;
            match r.position_of(a.category.as_str()) {
                Some(k) => {
                    let (cat, mut acts) = r.groups.remove(k);
                    acts.push(a.copy());
                    r.groups.insert(k, (cat, acts));
                    proof {
                        assert(before[k as int].0@ == a.category@);
                        assert(group_named(before, a.category@));
                        assert(r.groups@ =~= before.update(k as int, (cat, acts)));
                        assert forall|c: Seq<char>| group_named(r.groups@, c) <==> group_named(before, c) by {
                            if group_named(r.groups@, c) {
                                let t = choose|t: int| 0 <= t < r.groups@.len() && (#[trigger] r.groups@[t]).0@ == c;
                                assert(before[t].0@ == c);
                            }
                            if group_named(before, c) {
                                let t = choose|t: int| 0 <= t < before.len() && (#[trigger] before[t]).0@ == c;
                                assert(r.groups@[t].0@ == c);
                            }
                        }
                        assert forall|x: int, y: int| 0 <= x < y < r.groups@.len() implies (#[trigger] r.groups@[x]).0@ != (#[trigger] r.groups@[y]).0@ by {
                            assert(r.groups@[x].0@ == before[x].0@ && r.groups@[y].0@ == before[y].0@);
                        }
                        assert forall|c: Seq<char>| group_named(r.groups@, c) <==> has_category(next, c) by {
                            assert(group_named(before, c) == has_category(pre, c));
                            assert(has_category(next, c) == (has_category(pre, c) || a.category@ == c));
                            assert(group_named(r.groups@, c) == group_named(before, c));
                            if a.category@ == c {
                                assert(group_named(before, c));
                            }
                        }
                        assert forall|t: int| 0 <= t < r.groups@.len() implies same_actions(
                            (#[trigger] r.groups@[t]).1@,
                            in_category(next, r.groups@[t].0@),
                        ) by {
                            if t == k {
                                assert(in_category(next, cat@) == in_category(pre, cat@).push(*a));
                            } else {
                                assert(r.groups@[t] == before[t]);
                                assert(before[t].0@ != before[k as int].0@);
                                assert(in_category(next, r.groups@[t].0@) == in_category(pre, r.groups@[t].0@));
                            }
                        }
                    }
                },
                None => {
                    let mut acts: Vec<Action> = Vec::new();
                    acts.push(a.copy());
                    r.groups.push((a.category.clone(), acts));
                    proof {
                        let n = before.len() as int;
                        assert(r.groups@[n].0@ == a.category@);
                        assert forall|c: Seq<char>| group_named(r.groups@, c) <==> (group_named(before, c) || a.category@ == c) by {
                            if group_named(r.groups@, c) {
                                let t = choose|t: int| 0 <= t < r.groups@.len() && (#[trigger] r.groups@[t]).0@ == c;
                                if t < n {
                                    assert(before[t] == r.groups@[t]);
                                }
                            }
                            if group_named(before, c) {
                                let t = choose|t: int| 0 <= t < before.len() && (#[trigger] before[t]).0@ == c;
                                assert(r.groups@[t] == before[t]);
                            }
                        }
                        assert forall|c: Seq<char>| group_named(r.groups@, c) <==> has_category(next, c) by {
                            assert(group_named(before, c) == has_category(pre, c));
                            assert(has_category(next, c) == (has_category(pre, c) || a.category@ == c));
                            assert(group_named(r.groups@, c) == (group_named(before, c) || a.category@ == c));
                        }
                        assert forall|x: int, y: int| 0 <= x < y < r.groups@.len() implies (#[trigger] r.groups@[x]).0@ != (#[trigger] r.groups@[y]).0@ by {
                            assert(r.groups@[x] == before[x]);
                            if y < n {
                                assert(r.groups@[y] == before[y]);
                            }
                        }
                        assert(!has_category(pre, a.category@));
                        lemma_in_category_absent(pre, a.category@);
                        assert forall|t: int| 0 <= t < r.groups@.len() implies same_actions(
                            (#[trigger] r.groups@[t]).1@,
                            in_category(next, r.groups@[t].0@),
                        ) by {
                            if t == n {
                                assert(in_category(next, a.category@) == in_category(pre, a.category@).push(*a));
                                assert(in_category(next, a.category@) =~= seq![*a]);
                            } else {
                                assert(r.groups@[t] == before[t]);
                                assert(before[t].0@ != a.category@);
                                assert(in_category(next, r.groups@[t].0@) == in_category(pre, r.groups@[t].0@));
                            }
                        }
                    }
                },
            }
            i = i + 1;
        }
        assert(self.actions@.subrange(0, self.actions@.len() as int) =~= self.actions@);
        r
    }

    /// Number of registered actions.
    pub fn action_count(&self) -> (r: usize)
        ensures
            r == self.actions@.len(),
    {
        self.actions.len()
    }

    /// Number of plugins with at least one registered action.
    pub fn plugin_count(&self) -> (r: usize)
        ensures
            r == plugin_total(self.actions@),
    {
        let mut n: usize = 0;
        let mut i: usize = 0;
        while i < self.actions.len()
            invariant
                i <= self.actions@.len(),
                n <= i,
                n == plugin_total(self.actions@.subrange(0, i as int)),
            decreases self.actions@.len() - i,
        {
            let mut seen = false;
            let mut j: usize = 0;
            while j < i
                invariant
                    i < self.actions@.len(),
                    j <= i,
                    seen == exists|t: int| 0 <= t < j && (#[trigger] self.actions@[t]).plugin_id@ == self.actions@[i as int].plugin_id@,
                decreases i - j,
            {
                if same_text(self.actions[j].plugin_id.as_str(), self.actions[i].plugin_id.as_str()) {
                    seen = true;
                }
                j = j + 1;
            }
            proof {
                let pre = self.actions@.subrange(0, i + 1);
                assert(pre.drop_last() =~= self.actions@.subrange(0, i as int));
                assert(pre.last() == self.actions@[i as int]);
                assert(seen == exists|t: int| 0 <= t < pre.len() - 1 && (#[trigger] pre[t]).plugin_id@ == pre.last().plugin_id@) by {
                    if seen {
                        let t = choose|t: int| 0 <= t < i && (#[trigger] self.actions@[t]).plugin_id@ == self.actions@[i as int].plugin_id@;
                        assert(pre[t] == self.actions@[t]);
                    }
                    if exists|t: int| 0 <= t < pre.len() - 1 && (#[trigger] pre[t]).plugin_id@ == pre.last().plugin_id@ {
                        let t = choose|t: int| 0 <= t < pre.len() - 1 && (#[trigger] pre[t]).plugin_id@ == pre.last().plugin_id@;
                        assert(self.actions@[t] == pre[t]);
                    }
                }
            }
            if !seen {
                n = n + 1;
            }
            i = i + 1;
        }
        assert(self.actions@.subrange(0, self.actions@.len() as int) =~= self.actions@);
        n
    }
}

/// `not_owned_by` keeps actions of `s` only, and keeps identifiers unique.
proof fn lemma_not_owned_by_sub(s: Seq<Action>, p: Seq<char>)
    ensures
        forall|i: int| 0 <= i < not_owned_by(s, p).len() ==> exists|j: int| 0 <= j < s.len() && #[trigger] not_owned_by(s, p)[i] == s[j],
        (forall|i: int, j: int| 0 <= i < j < s.len() ==> (#[trigger] s[i]).id@ != (#[trigger] s[j]).id@) ==>
            (forall|i: int, j: int| 0 <= i < j < not_owned_by(s, p).len() ==> (#[trigger] not_owned_by(s, p)[i]).id@ != (#[trigger] not_owned_by(s, p)[j]).id@),
    decreases s.len(),
{
    if s.len() > 0 {
        let d = s.drop_last();
        lemma_not_owned_by_sub(d, p);
        let nd = not_owned_by(d, p);
        let ns = not_owned_by(s, p);
        assert forall|i: int| 0 <= i < ns.len() implies exists|j: int| 0 <= j < s.len() && #[trigger] ns[i] == s[j] by {
            if i < nd.len() {
                assert(ns[i] == nd[i]);
                let j = choose|j: int| 0 <= j < d.len() && #[trigger] nd[i] == d[j];
                assert(s[j] == d[j]);
            } else {
                assert(ns[i] == s[s.len() - 1]);
            }
        }
        if forall|i: int, j: int| 0 <= i < j < s.len() ==> (#[trigger] s[i]).id@ != (#[trigger] s[j]).id@ {
            assert forall|i: int, j: int| 0 <= i < j < d.len() implies (#[trigger] d[i]).id@ != (#[trigger] d[j]).id@ by {
                assert(d[i] == s[i] && d[j] == s[j]);
            }
            assert forall|i: int, j: int| 0 <= i < j < ns.len() implies (#[trigger] ns[i]).id@ != (#[trigger] ns[j]).id@ by {
                if j < nd.len() {
                    assert(ns[i] == nd[i] && ns[j] == nd[j]);
                } else {
                    assert(ns[i] == nd[i]);
                    assert(ns[j] == s.last());
                    let t = choose|t: int| 0 <= t < d.len() && #[trigger] nd[i] == d[t];
                    assert(d[t] == s[t]);
                }
            }
        }
    }
}

/// Once the actions of plugin `p` are removed, none of those left is owned
/// by `p`.
pub proof fn lemma_removed_plugin_leaves_none(s: Seq<Action>, p: Seq<char>)
    ensures
        forall|i: int| 0 <= i < not_owned_by(s, p).len() ==> (#[trigger] not_owned_by(s, p)[i]).plugin_id@ != p,
    decreases s.len(),
{
    if s.len() > 0 {
        lemma_removed_plugin_leaves_none(s.drop_last(), p);
        let nd = not_owned_by(s.drop_last(), p);
        let ns = not_owned_by(s, p);
        assert forall|i: int| 0 <= i < ns.len() implies (#[trigger] ns[i]).plugin_id@ != p by {
            if i < nd.len() {
                assert(ns[i] == nd[i]);
            }
        }
    }
}

/// No action of a category that does not occur.
proof fn lemma_in_category_absent(s: Seq<Action>, c: Seq<char>)
    requires
        !has_category(s, c),
    ensures
        in_category(s, c).len() == 0,
    decreases s.len(),
{
    if s.len() > 0 {
        let d = s.drop_last();
        assert(s.last() == s[s.len() - 1]);
        assert(!has_category(d, c)) by {
            if has_category(d, c) {
                let t = choose|t: int| 0 <= t < d.len() && (#[trigger] d[t]).category@ == c;
                assert(s[t] == d[t]);
            }
        }
        lemma_in_category_absent(d, c);
    }
}

} // verus!
