//! The registry of content stages and the pass that runs them over a body.

use vstd::prelude::*;
use crate::ipv4_detector::{redact_ipv4_in_content, redacted_ipv4};
use crate::ipv6_detector::{redact_ipv6_in_content, redacted_ipv6};

verus! {

/// What a registered stage does to a body.
#[derive(Clone, Copy, Debug, PartialEq, Eq, Structural)]
pub enum Stage {
    /// Replaces IPv4 addresses by the redaction marker.
    RedactIpv4,
    /// Replaces IPv6 addresses by the redaction marker.
    RedactIpv6,
}

/// A stage as it is registered: a unique name, a version for display, and
/// the transform.
pub struct ModuleInfo {
    pub name: String,
    pub version: String,
    pub stage: Stage,
}

/// The mathematical model of a registered stage.
pub ghost struct ModuleView {
    pub name: Seq<char>,
    pub version: Seq<char>,
    pub stage: Stage,
}

impl View for ModuleInfo {
    type V = ModuleView;

    open spec fn view(&self) -> ModuleView {
        ModuleView { name: self.name@, version: self.version@, stage: self.stage }
    }
}

/// The registered stages, in the order in which their names first came.
pub struct ModuleRegistry {
    modules: Vec<ModuleInfo>,
}

impl View for ModuleRegistry {
    type V = Seq<ModuleView>;

    closed spec fn view(&self) -> Seq<ModuleView> {
        Seq::new(self.modules@.len(), |i: int| self.modules@[i]@)
    }
}

/// No name occurs twice.
pub open spec fn unique_names(modules: Seq<ModuleView>) -> bool {
    forall|i: int, j: int|
        0 <= i < j < modules.len() ==> (#[trigger] modules[i]).name != (#[trigger] modules[j]).name
}

/// The position of the stage called `name`, or the length if there is none.
pub open spec fn position_of(modules: Seq<ModuleView>, name: Seq<char>) -> int
    decreases modules.len(),
{
    if modules.len() == 0 {
        0
    } else if modules[0].name == name {
        0
    } else {
        1 + position_of(modules.drop_first(), name)
    }
}

/// The registry after `info` was registered: a stage of the same name is
/// replaced where it stands, a new name goes to the end.
pub open spec fn registered(modules: Seq<ModuleView>, info: ModuleView) -> Seq<ModuleView> {
    let at = position_of(modules, info.name);
    if at < modules.len() {
        modules.update(at, info)
    } else {
        modules.push(info)
    }
}

/// What one stage makes of a body.
pub open spec fn stage_output(stage: Stage, body: Seq<char>) -> Seq<char> {
    match stage {
        Stage::RedactIpv4 => redacted_ipv4(body),
        Stage::RedactIpv6 => redacted_ipv6(body),
    }
}

/// What the stages make of a body, applied one after the other from the
/// first to the last.
pub open spec fn pipeline_output(modules: Seq<ModuleView>, body: Seq<char>) -> Seq<char>
    decreases modules.len(),
{
    if modules.len() == 0 {
        body
    } else {
        stage_output(modules.last().stage, pipeline_output(modules.drop_last(), body))
    }
}

/// `position_of` stays within the list, points at the name if it is below
/// the length, and passes no earlier entry of that name.
pub proof fn lemma_position_of(modules: Seq<ModuleView>, name: Seq<char>)
    ensures
        0 <= position_of(modules, name) <= modules.len(),
        position_of(modules, name) < modules.len() ==> modules[position_of(modules, name)].name
            == name,
        forall|k: int| 0 <= k < position_of(modules, name) ==> (#[trigger] modules[k]).name != name,
    decreases modules.len(),
{
    if modules.len() > 0 && modules[0].name != name {
        let rest = modules.drop_first();
        lemma_position_of(rest, name);
        assert forall|k: int| 0 <= k < position_of(modules, name) implies (
        #[trigger] modules[k]).name != name by {
            if k > 0 {
                assert(modules[k] == rest[k - 1]);
            }
        }
    }
}

/// Registering keeps the names unique, and never shrinks the registry.
pub proof fn lemma_registered_unique(modules: Seq<ModuleView>, info: ModuleView)
    requires
        unique_names(modules),
    ensures
        unique_names(registered(modules, info)),
        registered(modules, info).len() >= modules.len(),
{
    lemma_position_of(modules, info.name);
    let at = position_of(modules, info.name);
    let after = registered(modules, info);
    assert forall|i: int, j: int| 0 <= i < j < after.len() implies (#[trigger] after[i]).name != (
    #[trigger] after[j]).name by {
        if at < modules.len() {
            if i != at && j != at {
                assert(after[i] == modules[i] && after[j] == modules[j]);
            } else if i == at {
                assert(after[j] == modules[j]);
                assert(modules[at].name != modules[j].name);
            } else {
                assert(after[i] == modules[i]);
                assert(modules[i].name != modules[at].name);
            }
        } else {
            if j < modules.len() {
                assert(after[i] == modules[i] && after[j] == modules[j]);
            } else {
                assert(after[i] == modules[i]);
                assert(modules[i].name != info.name);
            }
        }
    }
}

impl ModuleRegistry {
    /// The registry's invariant: no name is registered twice.
    #[verifier::type_invariant]
    spec fn wf(self) -> bool {
        unique_names(self@)
    }

    /// An empty registry.
    pub fn new() -> (out: ModuleRegistry)
        ensures
            out@ == Seq::<ModuleView>::empty(),
            unique_names(out@),
    {
        let out = ModuleRegistry { modules: Vec::new() };
        assert(out@ =~= Seq::<ModuleView>::empty());
        out
    }

    /// The stage at `index`, in registry order.
    pub fn info(&self, index: usize) -> (out: &ModuleInfo)
        requires
            index < self@.len(),
        ensures
            out@ == self@[index as int],
    {
        &self.modules[index]
    }
}

/// Registers a stage under its name. A stage that is already registered under
/// that name is replaced; the last writer wins.
pub fn register_module(registry: &mut ModuleRegistry, info: ModuleInfo)
    ensures
        final(registry)@ == registered(old(registry)@, info@),
        unique_names(final(registry)@),
{
    proof {
        use_type_invariant(&*registry);
        lemma_registered_unique(registry@, info@);
        assert(registry@.skip(0) =~= registry@);
    }
    let mut i: usize = 0;
    let mut found: bool = false;
    while i < registry.modules.len() && !found
        invariant
            i <= registry.modules.len(),
            *registry == *old(registry),
            found ==> i < registry.modules.len() && registry@[i as int].name == info.name@,
            position_of(registry@, info.name@) == i + position_of(
                registry@.skip(i as int),
                info.name@,
            ),
        decreases registry.modules.len() - i + if found { 0int } else { 1int },
    {
        proof {
            assert(registry@.skip(i as int)[0] == registry@[i as int]);
            assert(registry@.skip(i as int).drop_first() =~= registry@.skip(i as int + 1));
        }
        if registry.modules[i].name == info.name {
            found = true;
        } else {
            i += 1;
        }
    }
    proof {
        if found {
            assert(registry@.skip(i as int)[0] == registry@[i as int]);
        } else {
            assert(registry@.skip(i as int).len() == 0);
        }
    }
    let ghost target = info@;
    let mut modules: Vec<ModuleInfo> = Vec::new();
    std::mem::swap(&mut modules, &mut registry.modules);
    if found {
        modules.set(i, info);
        assert((ModuleRegistry { modules })@ =~= old(registry)@.update(i as int, target));
    } else {
        modules.push(info);
        assert((ModuleRegistry { modules })@ =~= old(registry)@.push(target));
    }
    registry.modules = modules;
}

/// Runs every registered stage over `content`, from the first registered to
/// the last.
pub fn process_content(registry: &ModuleRegistry, content: &mut String)
    ensures
        final(content)@ == pipeline_output(registry@, old(content)@),
{
    let mut i: usize = 0;
    while i < registry.modules.len()
        invariant
            i <= registry.modules.len(),
            content@ == pipeline_output(registry@.take(i as int), old(content)@),
        decreases registry.modules.len() - i,
    {
        proof {
            assert(registry@.take(i as int + 1).drop_last() =~= registry@.take(i as int));
            assert(registry@.take(i as int + 1).last() == registry@[i as int]);
        }
        match registry.modules[i].stage {
            Stage::RedactIpv4 => redact_ipv4_in_content(content),
            Stage::RedactIpv6 => redact_ipv6_in_content(content),
        }
        i += 1;
    }
    assert(registry@.take(i as int) =~= registry@);
}

/// The number of registered stages; no two of them have the same name.
pub fn get_registered_module_count(registry: &ModuleRegistry) -> (n: usize)
    ensures
        n == registry@.len(),
        unique_names(registry@),
{
    proof {
        use_type_invariant(registry);
    }
    registry.modules.len()
}

} // verus!
