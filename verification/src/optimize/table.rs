//! The eleven Optimize actions in three groups, and the plan the UI shows.
//!
//! Every action is one of three kinds, and the kind decides which boundary it
//! crosses: a plain command needs no privileges; a privileged one joins the
//! single escalated batch behind one password prompt; a removal deletes
//! files, so it runs no command at all and goes through the Clean flow.

use vstd::prelude::*;

verus! {

pub const LSREGISTER: &'static str = "/System/Library/Frameworks/CoreServices.framework/Versions/A/Frameworks/LaunchServices.framework/Versions/A/Support/lsregister";

/// What `tmutil thinlocalsnapshots` is asked to free, in bytes (20 GiB). A
/// target, not everything: the label promises no more.
pub const SNAPSHOT_TARGET_BYTES: u64 = 21474836480;

#[derive(Debug, Clone, Copy, PartialEq, Eq, Structural)]
pub enum Group {
    CachesAndIndexes,
    SystemAndStorage,
    NetworkAndDevices,
}

/// A privileged command with one runtime value in it; its builder validates
/// that value.
#[derive(Debug, Clone, Copy, PartialEq, Eq, Structural)]
pub enum Dynamic {
    /// `tmutil thinlocalsnapshots / <bytes> 4`.
    ThinSnapshots,
    /// `ipconfig set <interface> DHCP` for the default route's interface.
    DhcpRenew,
}

/// A check that must pass before its action may run. It belongs to the
/// action, so renaming the action cannot detach it.
#[derive(Debug, Clone, Copy, PartialEq, Eq, Structural)]
pub enum Guard {
    /// Refuses while a Bluetooth input device is connected, or when the Mac
    /// has no built-in keyboard, or when that cannot be told.
    BluetoothInputs,
}

#[derive(Debug)]
pub enum Plan {
    Plain(Vec<Vec<&'static str>>),
    Privileged(Vec<Vec<&'static str>>),
    PrivilegedDynamic(Dynamic),
    /// Deletes files, so it routes through the removal module via the catalog
    /// entry it names.
    Removal(&'static str),
}

#[derive(Debug)]
pub struct Spec {
    pub id: &'static str,
    pub label: &'static str,
    pub group: Group,
    pub default_selected: bool,
    /// Every opt-in action states its cost here.
    pub note: Option<&'static str>,
    pub guard: Option<Guard>,
    pub plan: Plan,
}

pub enum PlanView {
    Plain(Seq<Seq<Seq<char>>>),
    Privileged(Seq<Seq<Seq<char>>>),
    Dynamic(Dynamic),
    Removal(Seq<char>),
}

pub struct SpecView {
    pub id: Seq<char>,
    pub label: Seq<char>,
    pub group: Group,
    pub default_selected: bool,
    pub note: Option<Seq<char>>,
    pub guard: Option<Guard>,
    pub plan: PlanView,
}

pub open spec fn command_view(c: Vec<&'static str>) -> Seq<Seq<char>> {
    c@.map_values(|t: &'static str| t@)
}

pub open spec fn commands_view(cs: Vec<Vec<&'static str>>) -> Seq<Seq<Seq<char>>> {
    cs@.map_values(|c: Vec<&'static str>| command_view(c))
}

pub open spec fn plan_view(p: Plan) -> PlanView {
    match p {
        Plan::Plain(cs) => PlanView::Plain(commands_view(cs)),
        Plan::Privileged(cs) => PlanView::Privileged(commands_view(cs)),
        Plan::PrivilegedDynamic(d) => PlanView::Dynamic(d),
        Plan::Removal(id) => PlanView::Removal(id@),
    }
}

pub open spec fn note_view(n: Option<&'static str>) -> Option<Seq<char>> {
    match n {
        Some(s) => Some(s@),
        None => None,
    }
}

pub open spec fn spec_view(s: Spec) -> SpecView {
    SpecView {
        id: s.id@,
        label: s.label@,
        group: s.group,
        default_selected: s.default_selected,
        note: note_view(s.note),
        guard: s.guard,
        plan: plan_view(s.plan),
    }
}

pub open spec fn table_view(t: Seq<Spec>) -> Seq<SpecView> {
    t.map_values(|s: Spec| spec_view(s))
}

pub open spec fn requires_admin_view(p: PlanView) -> bool {
    p is Privileged || p is Dynamic
}

pub open spec fn sv(
    id: &'static str,
    label: &'static str,
    group: Group,
    default_selected: bool,
    note: Option<Seq<char>>,
    guard: Option<Guard>,
    plan: PlanView,
) -> SpecView {
    SpecView { id: id@, label: label@, group, default_selected, note, guard, plan }
}

pub open spec fn one_command(c: Seq<Seq<char>>) -> Seq<Seq<Seq<char>>> {
    seq![c]
}

/// The action table, in the order the UI lists it and results are reported.
pub open spec fn actions_spec() -> Seq<SpecView> {
    seq![
        sv("font-caches", "Clear font caches", Group::CachesAndIndexes, true, None, None,
            PlanView::Plain(one_command(seq!["atsutil"@, "databases"@, "-remove"@]))),
        sv("quicklook-thumbnails", "Clear QuickLook thumbnails", Group::CachesAndIndexes, true,
            None, None, PlanView::Plain(one_command(seq!["qlmanage"@, "-r"@, "cache"@]))),
        sv("icon-cache", "Clear the icon cache", Group::CachesAndIndexes, true, None, None,
            PlanView::Removal("icon-services-cache"@)),
        sv("launch-services", "Rebuild the Open With list", Group::CachesAndIndexes, true, None,
            None, PlanView::Privileged(one_command(seq![
                LSREGISTER@, "-kill"@, "-r"@, "-domain"@, "local"@, "-domain"@, "system"@,
                "-domain"@, "user"@,
            ]))),
        sv("spotlight-reindex", "Rebuild the Spotlight index", Group::CachesAndIndexes, false,
            Some(spotlight_note()@), None,
            PlanView::Privileged(one_command(seq!["mdutil"@, "-E"@, "/"@]))),
        sv("restart-finder-dock", "Restart Finder and the Dock", Group::SystemAndStorage, true,
            None, None, PlanView::Plain(one_command(seq!["killall"@, "Finder"@, "Dock"@]))),
        sv("thin-snapshots", "Thin local Time Machine snapshots", Group::SystemAndStorage, false,
            Some(snapshots_note()@), None, PlanView::Dynamic(Dynamic::ThinSnapshots)),
        sv("verify-volume", "Verify the startup disk", Group::SystemAndStorage, false,
            Some(verify_note()@), None,
            PlanView::Plain(one_command(seq!["diskutil"@, "verifyVolume"@, "/"@]))),
        sv("dns-flush", "Flush the DNS cache", Group::NetworkAndDevices, true, None, None,
            PlanView::Privileged(seq![
                seq!["dscacheutil"@, "-flushcache"@],
                seq!["killall"@, "-HUP"@, "mDNSResponder"@],
            ])),
        sv("dhcp-renew", "Renew the DHCP lease", Group::NetworkAndDevices, false,
            Some(dhcp_note()@), None, PlanView::Dynamic(Dynamic::DhcpRenew)),
        sv("bluetooth-reset", "Restart Bluetooth", Group::NetworkAndDevices, false,
            Some(bluetooth_note()@), Some(Guard::BluetoothInputs),
            PlanView::Privileged(one_command(seq!["pkill"@, "bluetoothd"@]))),
    ]
}

pub open spec fn spotlight_note() -> &'static str {
    "Search will be incomplete and your Mac will run warm until this finishes — often an hour or more."
}

pub open spec fn snapshots_note() -> &'static str {
    "Removes the oldest local snapshots until 20 GB is free. Those restore points are gone for good."
}

pub open spec fn verify_note() -> &'static str {
    "Reads the whole disk. Takes a few minutes and changes nothing."
}

pub open spec fn dhcp_note() -> &'static str {
    "Drops the network for a moment."
}

pub open spec fn bluetooth_note() -> &'static str {
    "Disconnects every Bluetooth device until they reconnect."
}

fn tokens1(a: &'static str) -> (v: Vec<&'static str>)
    ensures
        command_view(v) == seq![a@],
{
    let mut v = Vec::new();
    v.push(a);
    assert(command_view(v) =~= seq![a@]);
    v
}

fn tokens2(a: &'static str, b: &'static str) -> (v: Vec<&'static str>)
    ensures
        command_view(v) == seq![a@, b@],
{
    let mut v = Vec::new();
    v.push(a);
    v.push(b);
    assert(command_view(v) =~= seq![a@, b@]);
    v
}

fn tokens3(a: &'static str, b: &'static str, c: &'static str) -> (v: Vec<&'static str>)
    ensures
        command_view(v) == seq![a@, b@, c@],
{
    let mut v = Vec::new();
    v.push(a);
    v.push(b);
    v.push(c);
    assert(command_view(v) =~= seq![a@, b@, c@]);
    v
}

fn lsregister_command() -> (v: Vec<&'static str>)
    ensures
        command_view(v) == seq![
            LSREGISTER@, "-kill"@, "-r"@, "-domain"@, "local"@, "-domain"@, "system"@,
            "-domain"@, "user"@,
        ],
{
    let mut v = Vec::new();
    v.push(LSREGISTER);
    v.push("-kill");
    v.push("-r");
    v.push("-domain");
    v.push("local");
    v.push("-domain");
    v.push("system");
    v.push("-domain");
    v.push("user");
    assert(command_view(v) =~= seq![
        LSREGISTER@, "-kill"@, "-r"@, "-domain"@, "local"@, "-domain"@, "system"@,
        "-domain"@, "user"@,
    ]);
    v
}

fn single(c: Vec<&'static str>) -> (v: Vec<Vec<&'static str>>)
    ensures
        commands_view(v) == one_command(command_view(c)),
{
    let ghost cv = command_view(c);
    let mut v = Vec::new();
    v.push(c);
    assert(commands_view(v) =~= one_command(cv));
    v
}

fn pair(c: Vec<&'static str>, d: Vec<&'static str>) -> (v: Vec<Vec<&'static str>>)
    ensures
        commands_view(v) == seq![command_view(c), command_view(d)],
{
    let ghost cv = command_view(c);
    let ghost dv = command_view(d);
    let mut v = Vec::new();
    v.push(c);
    v.push(d);
    assert(commands_view(v) =~= seq![cv, dv]);
    v
}

/// The action table.
pub fn actions() -> (t: Vec<Spec>)
    ensures
        table_view(t@) == actions_spec(),
{
    let mut t: Vec<Spec> = Vec::new();
    t.push(Spec {
        id: "font-caches",
        label: "Clear font caches",
        group: Group::CachesAndIndexes,
        default_selected: true,
        note: None,
        guard: None,
        plan: Plan::Plain(single(tokens3("atsutil", "databases", "-remove"))),
    });
    t.push(Spec {
        id: "quicklook-thumbnails",
        label: "Clear QuickLook thumbnails",
        group: Group::CachesAndIndexes,
        default_selected: true,
        note: None,
        guard: None,
        plan: Plan::Plain(single(tokens3("qlmanage", "-r", "cache"))),
    });
    t.push(Spec {
        id: "icon-cache",
        label: "Clear the icon cache",
        group: Group::CachesAndIndexes,
        default_selected: true,
        note: None,
        guard: None,
        plan: Plan::Removal("icon-services-cache"),
    });
    t.push(Spec {
        id: "launch-services",
        label: "Rebuild the Open With list",
        group: Group::CachesAndIndexes,
        default_selected: true,
        note: None,
        guard: None,
        plan: Plan::Privileged(single(lsregister_command())),
    });
    t.push(Spec {
        id: "spotlight-reindex",
        label: "Rebuild the Spotlight index",
        group: Group::CachesAndIndexes,
        default_selected: false,
        note: Some("Search will be incomplete and your Mac will run warm until this finishes — often an hour or more."),
        guard: None,
        plan: Plan::Privileged(single(tokens3("mdutil", "-E", "/"))),
    });
    t.push(Spec {
        id: "restart-finder-dock",
        label: "Restart Finder and the Dock",
        group: Group::SystemAndStorage,
        default_selected: true,
        note: None,
        guard: None,
        plan: Plan::Plain(single(tokens3("killall", "Finder", "Dock"))),
    });
    t.push(Spec {
        id: "thin-snapshots",
        label: "Thin local Time Machine snapshots",
        group: Group::SystemAndStorage,
        default_selected: false,
        note: Some("Removes the oldest local snapshots until 20 GB is free. Those restore points are gone for good."),
        guard: None,
        plan: Plan::PrivilegedDynamic(Dynamic::ThinSnapshots),
    });
    t.push(Spec {
        id: "verify-volume",
        label: "Verify the startup disk",
        group: Group::SystemAndStorage,
        default_selected: false,
        note: Some("Reads the whole disk. Takes a few minutes and changes nothing."),
        guard: None,
        plan: Plan::Plain(single(tokens3("diskutil", "verifyVolume", "/"))),
    });
    t.push(Spec {
        id: "dns-flush",
        label: "Flush the DNS cache",
        group: Group::NetworkAndDevices,
        default_selected: true,
        note: None,
        guard: None,
        plan: Plan::Privileged(
            pair(tokens2("dscacheutil", "-flushcache"), tokens3("killall", "-HUP", "mDNSResponder")),
        ),
    });
    t.push(Spec {
        id: "dhcp-renew",
        label: "Renew the DHCP lease",
        group: Group::NetworkAndDevices,
        default_selected: false,
        note: Some("Drops the network for a moment."),
        guard: None,
        plan: Plan::PrivilegedDynamic(Dynamic::DhcpRenew),
    });
    t.push(Spec {
        id: "bluetooth-reset",
        label: "Restart Bluetooth",
        group: Group::NetworkAndDevices,
        default_selected: false,
        note: Some("Disconnects every Bluetooth device until they reconnect."),
        guard: Some(Guard::BluetoothInputs),
        plan: Plan::Privileged(single(tokens2("pkill", "bluetoothd"))),
    });
    assert(table_view(t@) =~= actions_spec());
    t
}

/// No two actions share an id, so an id names one action.
pub proof fn lemma_action_ids_are_unique()
    ensures
        forall|i: int, j: int|
            0 <= i < j < actions_spec().len() ==> (#[trigger] actions_spec()[i]).id
                != (#[trigger] actions_spec()[j]).id,
{
    reveal_strlit("font-caches");
    reveal_strlit("quicklook-thumbnails");
    reveal_strlit("icon-cache");
    reveal_strlit("launch-services");
    reveal_strlit("spotlight-reindex");
    reveal_strlit("restart-finder-dock");
    reveal_strlit("thin-snapshots");
    reveal_strlit("verify-volume");
    reveal_strlit("dns-flush");
    reveal_strlit("dhcp-renew");
    reveal_strlit("bluetooth-reset");
    let t = actions_spec();
    assert forall|i: int, j: int| 0 <= i < j < t.len() implies #[trigger] t[i].id != #[trigger] t[j].id by {
        if t[i].id == t[j].id {
            assert(t[i].id.len() == t[j].id.len());
            assert(t[i].id[0] == t[j].id[0]);
        }
    }
}

/// Whether running this plan needs administrator access.
pub fn requires_admin(plan: &Plan) -> (r: bool)
    ensures
        r == requires_admin_view(plan_view(*plan)),
{
    match plan {
        Plan::Privileged(_) | Plan::PrivilegedDynamic(_) => true,
        _ => false,
    }
}

} // verus!
