//! The persisted configuration: which plugins are enabled.
use vstd::prelude::*;

verus! {

/// The configuration of the plugin host. It lists the plugins that are
/// enabled when the host starts.
pub struct PLuaConfig {
    pub enabled_plugins: Vec<String>,
}

/// The names other than `name`.
pub open spec fn other_than(name: Seq<char>) -> spec_fn(Seq<char>) -> bool {
    |n: Seq<char>| n != name
}

/// `names` with every occurrence of `name` removed, the others kept in order.
pub open spec fn without_name(names: Seq<Seq<char>>, name: Seq<char>) -> Seq<Seq<char>> {
    names.filter(other_than(name))
}

/// `names` with `name` appended unless it is already there.
pub open spec fn with_name(names: Seq<Seq<char>>, name: Seq<char>) -> Seq<Seq<char>> {
    if names.contains(name) {
        names
    } else {
        names.push(name)
    }
}

impl PLuaConfig {
    /// The enabled plugins' names, in order.
    pub open spec fn names(&self) -> Seq<Seq<char>> {
        self.enabled_plugins@.map_values(|s: String| s@)
    }

    /// A configuration with no plugin enabled.
    pub fn new() -> (config: Self)
        ensures
            config.names() == Seq::<Seq<char>>::empty(),
    {
        let config = PLuaConfig { enabled_plugins: Vec::new() };
        assert(config.names() =~= Seq::<Seq<char>>::empty());
        config
    }

    /// Whether `name` is listed as enabled.
    pub fn is_enabled(&self, name: &str) -> (found: bool)
        ensures
            found == self.names().contains(name@),
    {
        let target = name.to_owned();
        let mut i: usize = 0;
        while i < self.enabled_plugins.len()
            invariant
                i <= self.enabled_plugins.len(),
                target@ == name@,
                forall|j: int| 0 <= j < i ==> self.names()[j] != name@,
            decreases self.enabled_plugins.len() - i,
        {
            if self.enabled_plugins[i] == target {
                assert(self.names()[i as int] == name@);
                return true;
            }
            i = i + 1;
        }
        proof {
            if self.names().contains(name@) {
                let k = choose|k: int| 0 <= k < self.names().len() && self.names()[k] == name@;
                assert(self.names()[k] != name@);
            }
        }
        false
    }

    /// Lists `name` as enabled; a name already listed is not listed twice.
    pub fn enable_plugin(&mut self, name: &str)
        ensures
            final(self).names() == with_name(old(self).names(), name@),
    {
        if !self.is_enabled(name) {
            self.enabled_plugins.push(name.to_owned());
            assert(self.names() =~= old(self).names().push(name@));
        }
    }

    /// Removes every occurrence of `name` from the list, keeping the order of the others.
    pub fn disable_plugin(&mut self, name: &str)
        ensures
            final(self).names() == without_name(old(self).names(), name@),
    {
        let target = name.to_owned();
        let ghost pred = other_than(name@);
        let mut kept: Vec<String> = Vec::new();
        let mut i: usize = 0;
        while i < self.enabled_plugins.len()
            invariant
                i <= self.enabled_plugins.len(),
                target@ == name@,
                pred == other_than(name@),
                kept@.map_values(|s: String| s@) == self.names().take(i as int).filter(pred),
            decreases self.enabled_plugins.len() - i,
        {
            let ghost before = self.names().take(i as int);
            proof {
                assert(self.names().take(i as int + 1) =~= before.push(self.names()[i as int]));
                before.lemma_filter_push(self.names()[i as int], pred);
            }
            if !(self.enabled_plugins[i] == target) {
                kept.push(self.enabled_plugins[i].clone());
            }
            assert(kept@.map_values(|s: String| s@) =~= self.names().take(i as int + 1).filter(pred));
            i = i + 1;
        }
        assert(self.names().take(i as int) =~= self.names());
        self.enabled_plugins = kept;
    }
}


/// After a plugin is enabled, it is listed as enabled.
pub proof fn law_enable_lists(names: Seq<Seq<char>>, name: Seq<char>)
    ensures
        with_name(names, name).contains(name),
{
    if !names.contains(name) {
        assert(names.push(name)[names.len() as int] == name);
    }
}

/// After a plugin is disabled, it is no longer listed as enabled.
pub proof fn law_disable_unlists(names: Seq<Seq<char>>, name: Seq<char>)
    ensures
        !without_name(names, name).contains(name),
{
    let pred = other_than(name);
    broadcast use vstd::seq_lib::group_filter_ensures;
    if without_name(names, name).contains(name) {
        let i = choose|i: int| 0 <= i < without_name(names, name).len() && without_name(names, name)[i] == name;
        names.lemma_filter_pred(pred, i);
    }
}

/// Enabling a plugin twice lists it as enabling it once does.
pub proof fn law_enable_idempotent(names: Seq<Seq<char>>, name: Seq<char>)
    ensures
        with_name(with_name(names, name), name) == with_name(names, name),
{
    law_enable_lists(names, name);
}

/// Enabling never lists a plugin twice: a list without repeats stays so.
pub proof fn law_enable_keeps_unique(names: Seq<Seq<char>>, name: Seq<char>)
    requires
        names.no_duplicates(),
    ensures
        with_name(names, name).no_duplicates(),
{
    if !names.contains(name) {
        let t = names.push(name);
        assert forall|i: int, j: int| 0 <= i < t.len() && 0 <= j < t.len() && i != j implies t[i]
            != t[j] by {
            if i == names.len() as int {
                assert(names[j] == t[j]);
            } else if j == names.len() as int {
                assert(names[i] == t[i]);
            }
        }
    }
}

/// Enabling or disabling one plugin leaves every other plugin's status as it was.
pub proof fn law_status_of_others(names: Seq<Seq<char>>, name: Seq<char>, other: Seq<char>)
    requires
        other != name,
    ensures
        with_name(names, name).contains(other) == names.contains(other),
        without_name(names, name).contains(other) == names.contains(other),
{
    let pred = other_than(name);
    broadcast use vstd::seq_lib::group_filter_ensures;
    if names.contains(other) {
        let i = choose|i: int| 0 <= i < names.len() && names[i] == other;
        assert(pred(names[i]));
        names.lemma_filter_contains(pred, i);
        if !names.contains(name) {
            assert(names.push(name)[i] == other);
        }
    }
    if without_name(names, name).contains(other) {
        names.lemma_filter_contains_rev(pred, other);
    }
    if with_name(names, name).contains(other) && !names.contains(name) {
        let i = choose|i: int| 0 <= i < names.push(name).len() && names.push(name)[i] == other;
        assert(names[i] == other);
    }
}

/// Enabling a plugin that is not listed and then disabling it gives back the
/// list as it was.
pub proof fn law_enable_then_disable(names: Seq<Seq<char>>, name: Seq<char>)
    requires
        !names.contains(name),
    ensures
        without_name(with_name(names, name), name) == names,
{
    let pred = other_than(name);
    names.lemma_filter_push(name, pred);
    lemma_filter_absent(names, name);
}

/// Filtering out a name that is not there changes nothing.
proof fn lemma_filter_absent(names: Seq<Seq<char>>, name: Seq<char>)
    requires
        !names.contains(name),
    ensures
        without_name(names, name) == names,
    decreases names.len(),
{
    let pred = other_than(name);
    if names.len() > 0 {
        let init = names.drop_last();
        assert(!init.contains(name)) by {
            if init.contains(name) {
                let i = choose|i: int| 0 <= i < init.len() && init[i] == name;
                assert(names[i] == name);
            }
        }
        lemma_filter_absent(init, name);
        assert(names =~= init.push(names.last()));
        init.lemma_filter_push(names.last(), pred);
        assert(names.last() != name) by {
            assert(names[names.len() - 1] == names.last());
        }
    } else {
        assert(names.filter(pred) =~= names);
    }
}

} // verus!
