use vstd::prelude::*;
use crate::strutil::path_join;
use crate::strutil::str_concat;

verus! {

/// Where a repair pass stands.  The path carried along is the target
/// runtime-state directory.
pub enum RepairState {
    Start(String),
    EnsuringDirs(String),
    Detecting(String),
    Locating(String),
    FindingBootstrap(String, String),
    Invoking(String),
    Done(RepairStatus),
}

/// How a finished repair pass ended.
pub enum RepairStatus {
    Success,
    Failed(String),
}

/// What the driver must do next.  Everything that touches the world —
/// creating directories, reading version files, resolving the runtime,
/// probing for the bootstrap executable, running it — happens outside and
/// is reported back as an event.
pub enum RepairAction {
    EnsureDirs { pfx: String, drive_c: String, dosdevices: String, stamp: String },
    DetectVersion,
    LocateRuntime { version: String },
    FindBootstrap { runtime: String },
    Invoke { program: String, through_wine: bool, pfx: String },
    InvokeFallback { pfx: String },
    Stop,
}

/// What the driver observed while performing the last action.
pub enum RepairEvent {
    Started,
    DirsResult { ok: bool, message: String },
    Version(Option<String>),
    RuntimeFound(Option<String>),
    Bootstrap(Option<(String, bool)>),
    ExitStatus(Option<i32>),
}

/// The inner environment directory of a runtime-state path.
pub open spec fn spec_pfx(prefix: Seq<char>) -> Seq<char> {
    prefix + "/"@ + "pfx"@
}

/// Drives the repair pass one step: ensure the required directories
/// (fatal when that fails), detect a version and locate its runtime (best
/// effort), find the bootstrap executable inside it, invoke it — falling
/// back to the same-named executable on the general search path whenever
/// a best-effort step yields nothing — and report success exactly on a
/// zero exit status, any other outcome as a failure with diagnostic text.
pub fn repair_step(state: RepairState, event: RepairEvent) -> (r: (RepairState, RepairAction))
    ensures
        (match (state, event) {
            (RepairState::Start(p), RepairEvent::Started) => r.0 matches RepairState::EnsuringDirs(
                q,
            ) && q@ == p@ && (r.1 matches RepairAction::EnsureDirs { pfx, drive_c, dosdevices, stamp }
                && pfx@ == spec_pfx(p@) && drive_c@ == spec_pfx(p@) + "/"@ + "drive_c"@
                && dosdevices@ == spec_pfx(p@) + "/"@ + "dosdevices"@ && stamp@ == spec_pfx(p@)
                + "/"@ + ".update-timestamp"@),
            (RepairState::EnsuringDirs(p), RepairEvent::DirsResult { ok, message }) => if ok {
                r.0 matches RepairState::Detecting(q) && q@ == p@ && r.1
                    is DetectVersion
            } else {
                (r.0 matches RepairState::Done(RepairStatus::Failed(m)) && m@ == message@) && r.1
                    is Stop
            },
            (RepairState::Detecting(p), RepairEvent::Version(v)) => match v {
                Some(version) => r.0 matches RepairState::Locating(q) && q@ == p@ && (r.1
                    matches RepairAction::LocateRuntime { version: w } && w@ == version@),
                None => r.0 matches RepairState::Invoking(q) && q@ == p@ && (r.1
                    matches RepairAction::InvokeFallback { pfx } && pfx@ == spec_pfx(p@)),
            },
            (RepairState::Locating(p), RepairEvent::RuntimeFound(rt)) => match rt {
                Some(runtime) => r.0 matches RepairState::FindingBootstrap(q, rtq) && q@ == p@
                    && rtq@ == runtime@ && (r.1 matches RepairAction::FindBootstrap { runtime: w }
                    && w@ == runtime@),
                None => r.0 matches RepairState::Invoking(q) && q@ == p@ && (r.1
                    matches RepairAction::InvokeFallback { pfx } && pfx@ == spec_pfx(p@)),
            },
            (RepairState::FindingBootstrap(p, _), RepairEvent::Bootstrap(b)) => match b {
                Some((program, through_wine)) => r.0 matches RepairState::Invoking(q) && q@ == p@
                    && (r.1 matches RepairAction::Invoke { program: w, through_wine: tw, pfx }
                    && w@ == program@ && tw == through_wine && pfx@ == spec_pfx(p@)),
                None => r.0 matches RepairState::Invoking(q) && q@ == p@ && (r.1
                    matches RepairAction::InvokeFallback { pfx } && pfx@ == spec_pfx(p@)),
            },
            (RepairState::Invoking(_), RepairEvent::ExitStatus(code)) => match code {
                Some(c) => if c == 0 {
                    r.0 == RepairState::Done(RepairStatus::Success) && r.1 is Stop
                } else {
                    (r.0 matches RepairState::Done(RepairStatus::Failed(m)) && (c > 0 ==> m@
                        == "bootstrap exited with status "@ + crate::strutil::dec_str(c as nat)) && (
                    c < 0 ==> m@ == "bootstrap exited with status "@ + ("-"@
                        + crate::strutil::dec_str((-(c as i64)) as nat)))) && r.1 is Stop
                },
                None => (r.0 matches RepairState::Done(RepairStatus::Failed(m)) && m@
                    == "bootstrap could not be started"@) && r.1 is Stop,
            },
            (s, _) => r.0 == s && r.1 is Stop,
        }),
{
    match (state, event) {
        (RepairState::Start(p), RepairEvent::Started) => {
            let pfx = path_join(p.as_str(), "pfx");
            let drive_c = path_join(pfx.as_str(), "drive_c");
            let dosdevices = path_join(pfx.as_str(), "dosdevices");
            let stamp = path_join(pfx.as_str(), ".update-timestamp");
            (
                RepairState::EnsuringDirs(p),
                RepairAction::EnsureDirs { pfx, drive_c, dosdevices, stamp },
            )
        },
        (RepairState::EnsuringDirs(p), RepairEvent::DirsResult { ok, message }) => {
            if ok {
                (RepairState::Detecting(p), RepairAction::DetectVersion)
            } else {
                (RepairState::Done(RepairStatus::Failed(message)), RepairAction::Stop)
            }
        },
        (RepairState::Detecting(p), RepairEvent::Version(v)) => {
            match v {
                Some(version) => (
                    RepairState::Locating(p),
                    RepairAction::LocateRuntime { version },
                ),
                None => {
                    let pfx = path_join(p.as_str(), "pfx");
                    (RepairState::Invoking(p), RepairAction::InvokeFallback { pfx })
                },
            }
        },
        (RepairState::Locating(p), RepairEvent::RuntimeFound(rt)) => {
            match rt {
                Some(runtime) => {
                    let action = RepairAction::FindBootstrap { runtime: runtime.clone() };
                    (RepairState::FindingBootstrap(p, runtime), action)
                },
                None => {
                    let pfx = path_join(p.as_str(), "pfx");
                    (RepairState::Invoking(p), RepairAction::InvokeFallback { pfx })
                },
            }
        },
        (RepairState::FindingBootstrap(p, _), RepairEvent::Bootstrap(b)) => {
            match b {
                Some((program, through_wine)) => {
                    let pfx = path_join(p.as_str(), "pfx");
                    (
                        RepairState::Invoking(p),
                        RepairAction::Invoke { program, through_wine, pfx },
                    )
                },
                None => {
                    let pfx = path_join(p.as_str(), "pfx");
                    (RepairState::Invoking(p), RepairAction::InvokeFallback { pfx })
                },
            }
        },
        (RepairState::Invoking(p), RepairEvent::ExitStatus(code)) => {
            match code {
                Some(c) => {
                    if c == 0 {
                        (RepairState::Done(RepairStatus::Success), RepairAction::Stop)
                    } else {
                        let msg = str_concat(
                            "bootstrap exited with status ",
                            i32_to_string(c).as_str(),
                        );
                        (RepairState::Done(RepairStatus::Failed(msg)), RepairAction::Stop)
                    }
                },
                None => {
                    (
                        RepairState::Done(
                            RepairStatus::Failed(
                                String::from_str("bootstrap could not be started"),
                            ),
                        ),
                        RepairAction::Stop,
                    )
                },
            }
        },
        (s, _) => (s, RepairAction::Stop),
    }
}

/// Renders a signed 32-bit number in decimal.
pub fn i32_to_string(n: i32) -> (r: String)
    ensures
        n >= 0 ==> r@ == crate::strutil::dec_str(n as nat),
        n < 0 ==> r@ == "-"@ + crate::strutil::dec_str((-(n as i64)) as nat),
{
    if n >= 0 {
        crate::strutil::u64_to_string(n as u64)
    } else {
        let mag = -(n as i64);
        str_concat("-", crate::strutil::u64_to_string(mag as u64).as_str())
    }
}

/// The conventional relative locations of the bootstrap executable inside
/// a runtime, in search order.
pub fn wineboot_candidates(runtime: &str) -> (r: Vec<String>)
    ensures
        r@.len() == 3,
        r@[0]@ == runtime@ + "/"@ + "dist/bin/wineboot"@,
        r@[1]@ == runtime@ + "/"@ + "files/bin/wineboot"@,
        r@[2]@ == runtime@ + "/"@ + "bin/wineboot"@,
{
    let mut v: Vec<String> = Vec::new();
    v.push(path_join(runtime, "dist/bin/wineboot"));
    v.push(path_join(runtime, "files/bin/wineboot"));
    v.push(path_join(runtime, "bin/wineboot"));
    v
}

/// The conventional relative locations of the loader inside a runtime,
/// in search order.
pub fn wine_candidates(runtime: &str) -> (r: Vec<String>)
    ensures
        r@.len() == 6,
        r@[0]@ == runtime@ + "/"@ + "dist/bin/wine64"@,
        r@[1]@ == runtime@ + "/"@ + "dist/bin/wine"@,
        r@[2]@ == runtime@ + "/"@ + "files/bin/wine64"@,
        r@[3]@ == runtime@ + "/"@ + "files/bin/wine"@,
        r@[4]@ == runtime@ + "/"@ + "bin/wine64"@,
        r@[5]@ == runtime@ + "/"@ + "bin/wine"@,
{
    let mut v: Vec<String> = Vec::new();
    v.push(path_join(runtime, "dist/bin/wine64"));
    v.push(path_join(runtime, "dist/bin/wine"));
    v.push(path_join(runtime, "files/bin/wine64"));
    v.push(path_join(runtime, "files/bin/wine"));
    v.push(path_join(runtime, "bin/wine64"));
    v.push(path_join(runtime, "bin/wine"));
    v
}

/// The first candidate the caller saw on disk.
pub open spec fn spec_first_present(cands: Seq<Seq<char>>, present: Seq<bool>) -> Option<Seq<char>>
    decreases cands,
{
    if cands.len() == 0 || present.len() == 0 {
        None
    } else if present[0] {
        Some(cands[0])
    } else {
        spec_first_present(cands.drop_first(), present.drop_first())
    }
}

/// Picks the bootstrap executable: the first of its conventional
/// locations under the runtime that the caller saw on disk.
pub fn find_wineboot(candidates: &Vec<String>, present: &Vec<bool>) -> (r: Option<String>)
    requires
        candidates@.len() == present@.len(),
    ensures
        match r {
            Some(p) => spec_first_present(candidates.deep_view(), present@) == Some(p@),
            None => spec_first_present(candidates.deep_view(), present@) is None,
        },
{
    first_present(candidates, present)
}

/// Picks the loader: the first of its conventional locations under the
/// runtime that the caller saw on disk.
pub fn find_wine(candidates: &Vec<String>, present: &Vec<bool>) -> (r: Option<String>)
    requires
        candidates@.len() == present@.len(),
    ensures
        match r {
            Some(p) => spec_first_present(candidates.deep_view(), present@) == Some(p@),
            None => spec_first_present(candidates.deep_view(), present@) is None,
        },
{
    first_present(candidates, present)
}

fn first_present(candidates: &Vec<String>, present: &Vec<bool>) -> (r: Option<String>)
    requires
        candidates@.len() == present@.len(),
    ensures
        match r {
            Some(p) => spec_first_present(candidates.deep_view(), present@) == Some(p@),
            None => spec_first_present(candidates.deep_view(), present@) is None,
        },
{
    let ghost cs = candidates.deep_view();
    proof {
        assert(cs.subrange(0, cs.len() as int) =~= cs);
        assert(present@.subrange(0, present@.len() as int) =~= present@);
    }
    let mut i: usize = 0;
    while i < candidates.len()
        invariant
            i <= candidates@.len(),
            cs == candidates.deep_view(),
            cs.len() == candidates@.len(),
            present@.len() == candidates@.len(),
            spec_first_present(cs, present@) == spec_first_present(
                cs.subrange(i as int, cs.len() as int),
                present@.subrange(i as int, present@.len() as int),
            ),
        decreases candidates@.len() - i,
    {
        let ghost ctail = cs.subrange(i as int, cs.len() as int);
        let ghost ptail = present@.subrange(i as int, present@.len() as int);
        proof {
            assert(ctail[0] == cs[i as int]);
            assert(cs[i as int] == candidates@[i as int]@);
            assert(ptail[0] == present@[i as int]);
            assert(ctail.drop_first() =~= cs.subrange(i as int + 1, cs.len() as int));
            assert(ptail.drop_first() =~= present@.subrange(i as int + 1, present@.len() as int));
        }
        if present[i] {
            return Some(candidates[i].clone());
        }
        i = i + 1;
    }
    proof {
        assert(cs.subrange(cs.len() as int, cs.len() as int) =~= Seq::<Seq<char>>::empty());
    }
    None
}

} // verus!
