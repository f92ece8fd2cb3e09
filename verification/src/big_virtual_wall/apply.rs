//! What has to be run on the hosts to create or remove an overlay.

use vstd::prelude::*;

use crate::big_virtual_wall::generator::{
    generate_host_cleanup_scripts, generate_host_runtime_scripts, generate_host_scripts,
};
use crate::big_virtual_wall::overlay::OverlaySpec;
use crate::big_virtual_wall::planner::{plan_overlay_with_underlay, HostPlan};
use crate::big_virtual_wall::safety::validate_safety;
use crate::string_map::StringMap;
use crate::virtual_wall::error::VirtualWallError;

verus! {

/// A command for a host.
#[derive(Debug, Clone)]
pub struct HostCommand {
    pub host: String,
    pub command: String,
    /// Whether the work goes on when the command fails.
    pub best_effort: bool,
}

/// The command that runs a script as root.
pub open spec fn script_command(script: Seq<char>) -> Seq<char> {
    "sudo bash -s <<'EOS'\n"@ + script + "\nEOS"@
}

/// The command that removes all namespaces and virtual interfaces of a host.
pub open spec fn namespace_cleanup() -> Seq<char> {
    "sudo bash -s <<'EOS'\nfor ns in $(ip netns list | awk '{print $1}'); do ip netns del $ns 2>/dev/null || true; done\nfor v in $(ip -o link show | awk -F: '/veth-/ {print $2}' | tr -d ' '); do ip link del $v 2>/dev/null || true; done\nEOS"@
}

/// Whether a command is the given one, and whether it may fail.
pub open spec fn is_command(
    c: HostCommand,
    host: Seq<char>,
    command: Seq<char>,
    best_effort: bool,
) -> bool {
    c.host@ == host && c.command@ == command && c.best_effort == best_effort
}

/// Whether commands set up the planned hosts and then create the nodes on each of them.
pub open spec fn applies(commands: Seq<HostCommand>, plans: Seq<HostPlan>, spec: OverlaySpec) -> bool {
    let n = plans.len() as int;
    let bindings = match spec.vlan_bindings {
        Some(m) => m@,
        None => Map::empty(),
    };
    &&& commands.len() == 2 * n
    &&& forall|i: int|
        0 <= i < n ==> is_command(
            #[trigger] commands[i],
            plans[i].host@,
            script_command(crate::big_virtual_wall::generator::setup_script(plans[i], bindings)),
            false,
        )
    &&& forall|i: int|
        n <= i < 2 * n ==> is_command(
            #[trigger] commands[i],
            plans[i - n].host@,
            script_command(
                crate::big_virtual_wall::generator::runtime_script(plans, spec, plans[i - n]),
            ),
            false,
        )
}

/// Whether commands remove the overlay from the planned hosts and then their namespaces.
pub open spec fn cleans(commands: Seq<HostCommand>, plans: Seq<HostPlan>) -> bool {
    let n = plans.len() as int;
    &&& commands.len() == 2 * n
    &&& forall|i: int|
        0 <= i < n ==> is_command(
            #[trigger] commands[i],
            plans[i].host@,
            script_command(crate::big_virtual_wall::generator::cleanup_script(plans[i])),
            false,
        )
    &&& forall|i: int|
        n <= i < 2 * n ==> is_command(
            #[trigger] commands[i],
            plans[i - n].host@,
            namespace_cleanup(),
            true,
        )
}

/// Whether an overlay is accepted by the safety checks.
pub open spec fn is_safe(
    spec: OverlaySpec,
    underlay: Map<Seq<char>, String>,
    allow_mgmt: bool,
) -> bool {
    &&& crate::big_virtual_wall::safety::hosts_are_safe(spec, underlay, allow_mgmt)
    &&& crate::big_virtual_wall::safety::vlan_fault(spec) is None
}

/// Whether plans are those of an overlay.
pub open spec fn is_plan(
    plans: Seq<HostPlan>,
    spec: OverlaySpec,
    underlay: Map<Seq<char>, String>,
) -> bool {
    crate::big_virtual_wall::planner::lists_plans(
        plans,
        crate::big_virtual_wall::planner::plans_after(spec, underlay, spec.links@.len()),
    )
}

fn wrap_script(script: &str) -> (r: String)
    ensures
        r@ == script_command(script@),
{
    "sudo bash -s <<'EOS'\n".to_owned().concat(script).concat("\nEOS")
}

proof fn unassigned_is_bounded(spec: OverlaySpec, n: nat)
    ensures
        crate::big_virtual_wall::planner::unassigned(spec.links@, n) <= n,
    decreases n,
{
    if n > 0 {
        unassigned_is_bounded(spec, (n - 1) as nat);
    }
}

/// An overlay that is safe can be planned: its VLAN ids can be represented.
pub proof fn safe_overlays_can_be_planned(
    spec: OverlaySpec,
    underlay: Map<Seq<char>, String>,
    allow_mgmt: bool,
)
    requires
        is_safe(spec, underlay, allow_mgmt),
    ensures
        crate::big_virtual_wall::planner::vlan_ids_fit(spec),
{
    unassigned_is_bounded(spec, spec.links@.len());
}

fn push_scripts(commands: &mut Vec<HostCommand>, scripts: &Vec<(String, String)>)
    ensures
        final(commands)@.len() == old(commands)@.len() + scripts@.len(),
        forall|i: int|
            0 <= i < old(commands)@.len() ==> #[trigger] final(commands)@[i] == old(commands)@[i],
        forall|i: int|
            old(commands)@.len() <= i < final(commands)@.len() ==> is_command(
                #[trigger] final(commands)@[i],
                scripts@[i - old(commands)@.len()].0@,
                script_command(scripts@[i - old(commands)@.len()].1@),
                false,
            ),
{
    let ghost start = commands@;
    let mut i: usize = 0;
    while i < scripts.len()
        invariant
            i <= scripts.len(),
            commands@.len() == start.len() + i,
            forall|j: int| 0 <= j < start.len() ==> #[trigger] commands@[j] == start[j],
            forall|j: int|
                start.len() <= j < commands@.len() ==> is_command(
                    #[trigger] commands@[j],
                    scripts@[j - start.len()].0@,
                    script_command(scripts@[j - start.len()].1@),
                    false,
                ),
        decreases scripts.len() - i,
    {
        commands.push(
            HostCommand {
                host: scripts[i].0.clone(),
                command: wrap_script(scripts[i].1.as_str()),
                best_effort: false,
            },
        );
        i += 1;
    }
}

/// The commands that create an overlay: the setup of every host, then the virtual nodes.
pub fn apply_overlay(spec: &OverlaySpec, underlay: &StringMap<String>, allow_mgmt: bool) -> (r:
    Result<Vec<HostCommand>, VirtualWallError>)
    ensures
        match r {
            Ok(_) => is_safe(*spec, underlay@, allow_mgmt),
            Err(e) => crate::big_virtual_wall::safety::is_safety_error(
                *spec,
                underlay@,
                allow_mgmt,
                e,
            ),
        },
        r is Ok ==> exists|plans: Seq<HostPlan>| #[trigger]
            is_plan(plans, *spec, underlay@) && applies(r->Ok_0@, plans, *spec),
{
    match validate_safety(spec, underlay, allow_mgmt) {
        Err(e) => Err(e),
        Ok(_) => {
            proof {
                safe_overlays_can_be_planned(*spec, underlay@, allow_mgmt);
            }
            let plan = plan_overlay_with_underlay(spec, underlay);
            let bindings = match &spec.vlan_bindings {
                Some(m) => Some(m),
                None => None,
            };
            let setup = generate_host_scripts(&plan, bindings);
            let runtime = generate_host_runtime_scripts(&plan, spec);
            let mut commands: Vec<HostCommand> = Vec::new();
            push_scripts(&mut commands, &setup);
            let ghost half = commands@;
            push_scripts(&mut commands, &runtime);
            proof {
                let n = plan.host_plans@.len() as int;
                assert forall|i: int| 0 <= i < n implies #[trigger] commands@[i] == half[i]
                    && setup@[i].0@ == plan.host_plans@[i].host@ by {}
                assert forall|i: int| n <= i < 2 * n implies (#[trigger] commands@[i]).host@
                    == runtime@[i - n].0@ && runtime@[i - n].0@ == plan.host_plans@[i - n].host@ by {}
                assert(is_plan(plan.host_plans@, *spec, underlay@));
                assert(applies(commands@, plan.host_plans@, *spec));
            }
            Ok(commands)
        },
    }
}

/// The commands that remove an overlay: its devices from every host, then the namespaces.
pub fn clean_overlay(spec: &OverlaySpec, underlay: &StringMap<String>, allow_mgmt: bool) -> (r:
    Result<Vec<HostCommand>, VirtualWallError>)
    ensures
        match r {
            Ok(_) => is_safe(*spec, underlay@, allow_mgmt),
            Err(e) => crate::big_virtual_wall::safety::is_safety_error(
                *spec,
                underlay@,
                allow_mgmt,
                e,
            ),
        },
        r is Ok ==> exists|plans: Seq<HostPlan>| #[trigger]
            is_plan(plans, *spec, underlay@) && cleans(r->Ok_0@, plans),
{
    match validate_safety(spec, underlay, allow_mgmt) {
        Err(e) => Err(e),
        Ok(_) => {
            proof {
                safe_overlays_can_be_planned(*spec, underlay@, allow_mgmt);
            }
            let plan = plan_overlay_with_underlay(spec, underlay);
            let scripts = generate_host_cleanup_scripts(&plan);
            let mut commands: Vec<HostCommand> = Vec::new();
            push_scripts(&mut commands, &scripts);
            let ghost half = commands@;
            let mut i: usize = 0;
            while i < plan.host_plans.len()
                invariant
                    i <= plan.host_plans.len(),
                    half.len() == plan.host_plans@.len(),
                    commands@.len() == half.len() + i,
                    forall|j: int| 0 <= j < half.len() ==> #[trigger] commands@[j] == half[j],
                    forall|j: int|
                        half.len() <= j < commands@.len() ==> is_command(
                            #[trigger] commands@[j],
                            plan.host_plans@[j - half.len()].host@,
                            namespace_cleanup(),
                            true,
                        ),
                decreases plan.host_plans.len() - i,
            {
                commands.push(
                    HostCommand {
                        host: plan.host_plans[i].host.clone(),
                        command:
                            "sudo bash -s <<'EOS'\nfor ns in $(ip netns list | awk '{print $1}'); do ip netns del $ns 2>/dev/null || true; done\nfor v in $(ip -o link show | awk -F: '/veth-/ {print $2}' | tr -d ' '); do ip link del $v 2>/dev/null || true; done\nEOS".to_owned(),
                        best_effort: true,
                    },
                );
                i += 1;
            }
            proof {
                let n = plan.host_plans@.len() as int;
                assert forall|i: int| 0 <= i < n implies #[trigger] commands@[i] == half[i]
                    && scripts@[i].0@ == plan.host_plans@[i].host@ by {}
                assert(is_plan(plan.host_plans@, *spec, underlay@));
                assert(cleans(commands@, plan.host_plans@));
            }
            Ok(commands)
        },
    }
}

/// Every host of a plan is set up by its own script, and its nodes are started on it behind that;
/// nothing goes on where one of these fails.
pub proof fn hosts_are_set_up_before_nodes_start(
    commands: Seq<HostCommand>,
    plans: Seq<HostPlan>,
    spec: OverlaySpec,
    bindings: Map<u16, String>,
    i: int,
)
    requires
        applies(commands, plans, spec),
        0 <= i < plans.len(),
        spec.vlan_bindings is Some ==> bindings == spec.vlan_bindings->0@,
        spec.vlan_bindings is None ==> bindings == Map::<u16, String>::empty(),
    ensures
        exists|j: int, k: int|
            0 <= j < k < commands.len() && ({
                &&& (#[trigger] commands[j]).host@ == plans[i].host@
                &&& crate::text::holds(
                    commands[j].command@,
                    crate::big_virtual_wall::generator::setup_script(plans[i], bindings),
                )
                &&& !commands[j].best_effort
                &&& (#[trigger] commands[k]).host@ == plans[i].host@
                &&& crate::text::holds(
                    commands[k].command@,
                    crate::big_virtual_wall::generator::runtime_script(plans, spec, plans[i]),
                )
                &&& !commands[k].best_effort
            }),
{
    let n = plans.len() as int;
    assert(is_command(
        commands[i],
        plans[i].host@,
        script_command(crate::big_virtual_wall::generator::setup_script(plans[i], bindings)),
        false,
    ));
    assert(is_command(
        commands[n + i],
        plans[i].host@,
        script_command(
            crate::big_virtual_wall::generator::runtime_script(plans, spec, plans[i]),
        ),
        false,
    ));
    crate::text::holds_its_middle(
        "sudo bash -s <<'EOS'\n"@,
        crate::big_virtual_wall::generator::setup_script(plans[i], bindings),
        "\nEOS"@,
    );
    crate::text::holds_its_middle(
        "sudo bash -s <<'EOS'\n"@,
        crate::big_virtual_wall::generator::runtime_script(plans, spec, plans[i]),
        "\nEOS"@,
    );
}

/// Every host of a plan is cleaned by its own script.
pub proof fn every_host_is_cleaned(commands: Seq<HostCommand>, plans: Seq<HostPlan>, i: int)
    requires
        cleans(commands, plans),
        0 <= i < plans.len(),
    ensures
        exists|j: int|
            0 <= j < commands.len() && (#[trigger] commands[j]).host@ == plans[i].host@
                && crate::text::holds(
                commands[j].command@,
                crate::big_virtual_wall::generator::cleanup_script(plans[i]),
            ),
{
    assert(is_command(
        commands[i],
        plans[i].host@,
        script_command(crate::big_virtual_wall::generator::cleanup_script(plans[i])),
        false,
    ));
    crate::text::holds_its_middle(
        "sudo bash -s <<'EOS'\n"@,
        crate::big_virtual_wall::generator::cleanup_script(plans[i]),
        "\nEOS"@,
    );
}

} // verus!
