//! The fleet: every machine that exists, held to the host's RAM budget.
use vstd::prelude::*;

use crate::config::ConfigFile;
use crate::machine::{feedback_next, feedback_view, Artifact, JitConfig, Machine, MachineView, Status};
use crate::random::random_alphanumeric;
use crate::text::{alphanumeric_text, starts_with, str_equal, strings_view};
use crate::triplet::{labelled_machine, OwnerAndRepo, Triplet};

verus! {

/// The RAM held by the machines of `s`.
pub open spec fn total_consumed(s: Seq<MachineView>) -> nat
    decreases s.len(),
{
    if s.len() == 0 {
        0
    } else {
        total_consumed(s.drop_last()) + s.last().consumed()
    }
}

/// No two machines share a run token.
pub open spec fn tokens_unique(s: Seq<MachineView>) -> bool {
    forall|i: int, j: int|
        0 <= i < s.len() && 0 <= j < s.len() && i != j ==> (#[trigger] s[i]).run_token
            != (#[trigger] s[j]).run_token
}

pub open spec fn fleet_wf(s: Seq<MachineView>, host_ram: u64) -> bool {
    &&& forall|i: int| 0 <= i < s.len() ==> (#[trigger] s[i]).wf()
    &&& total_consumed(s) <= host_ram
    &&& tokens_unique(s)
}

/// The machines of `s` that have not stopped, in order.
pub open spec fn live(s: Seq<MachineView>) -> Seq<MachineView>
    decreases s.len(),
{
    if s.len() == 0 {
        s
    } else if s.last().status == Status::Stopped {
        live(s.drop_last())
    } else {
        live(s.drop_last()).push(s.last())
    }
}

pub proof fn lemma_total_update(s: Seq<MachineView>, i: int, m: MachineView)
    requires
        0 <= i < s.len(),
    ensures
        total_consumed(s.update(i, m)) + s[i].consumed() == total_consumed(s) + m.consumed(),
    decreases s.len(),
{
    if i < s.len() - 1 {
        lemma_total_update(s.drop_last(), i, m);
        assert(s.update(i, m).drop_last() =~= s.drop_last().update(i, m));
    } else {
        assert(s.update(i, m).drop_last() =~= s.drop_last());
    }
}

pub proof fn lemma_total_remove(s: Seq<MachineView>, i: int)
    requires
        0 <= i < s.len(),
    ensures
        total_consumed(s.remove(i)) + s[i].consumed() == total_consumed(s),
    decreases s.len(),
{
    if i < s.len() - 1 {
        lemma_total_remove(s.drop_last(), i);
        assert(s.remove(i).drop_last() =~= s.drop_last().remove(i));
        assert(s.remove(i).last() == s.last());
    } else {
        assert(s.remove(i) =~= s.drop_last());
    }
}

pub proof fn lemma_total_prefix(s: Seq<MachineView>, k: int)
    requires
        0 <= k <= s.len(),
    ensures
        total_consumed(s.take(k)) <= total_consumed(s),
    decreases s.len() - k,
{
    if k < s.len() {
        lemma_total_prefix(s, k + 1);
        assert(s.take(k + 1).drop_last() =~= s.take(k));
    } else {
        assert(s.take(k) =~= s);
    }
}

/// Runner feedback never changes whether a machine holds RAM.
pub proof fn lemma_feedback_keeps_guest(s: Status, online: Option<bool>, busy: bool)
    ensures
        feedback_next(s, online, busy).has_guest() == s.has_guest(),
        s == Status::Stopped ==> feedback_next(s, online, busy) == Status::Stopped,
{
}

/// Replacing one machine keeps the fleet well formed where the new one is
/// well formed, keeps its run token and fits in the budget.
pub proof fn lemma_fleet_update(s: Seq<MachineView>, host_ram: u64, i: int, m: MachineView)
    requires
        fleet_wf(s, host_ram),
        0 <= i < s.len(),
        m.wf(),
        m.run_token == s[i].run_token,
        total_consumed(s) - s[i].consumed() + m.consumed() <= host_ram,
    ensures
        fleet_wf(s.update(i, m), host_ram),
        total_consumed(s.update(i, m)) == total_consumed(s) - s[i].consumed() + m.consumed(),
{
    lemma_total_update(s, i, m);
    let t = s.update(i, m);
    assert forall|a: int, b: int|
        0 <= a < t.len() && 0 <= b < t.len() && a != b implies (#[trigger] t[a]).run_token
        != (#[trigger] t[b]).run_token by {
        assert(t[a].run_token == s[a].run_token);
        assert(t[b].run_token == s[b].run_token);
    }
}

/// Whether `m` is the machine of type `t` registered as runner `runner_name`.
pub open spec fn is_runner(m: MachineView, t: (Seq<char>, Seq<char>, Seq<char>), runner_name: Seq<char>) -> bool {
    m.triplet == t && m.runner_name == runner_name
}

pub open spec fn is_live_runner(m: MachineView, t: (Seq<char>, Seq<char>, Seq<char>), runner_name: Seq<char>) -> bool {
    m.status != Status::Stopped && is_runner(m, t, runner_name)
}

pub type TripletView = (Seq<char>, Seq<char>, Seq<char>);

pub open spec fn triplets_view(v: Seq<Triplet>) -> Seq<TripletView> {
    v.map_values(|t: Triplet| t@)
}

/// How often `t` occurs in `s`.
pub open spec fn count_of(s: Seq<TripletView>, t: TripletView) -> nat
    decreases s.len(),
{
    if s.len() == 0 {
        0
    } else {
        count_of(s.drop_last(), t) + if s.last() == t {
            1nat
        } else {
            0
        }
    }
}

/// The number of available machines of type `t` in `s`.
pub open spec fn available_count(s: Seq<MachineView>, t: TripletView) -> nat
    decreases s.len(),
{
    if s.len() == 0 {
        0
    } else {
        available_count(s.drop_last(), t) + if s.last().status.available() && s.last().triplet
            == t {
            1nat
        } else {
            0
        }
    }
}

/// Machine `j` is kept in preference to machine `i` of the same type: it is
/// available and more costly to kill, or as costly and earlier in the fleet.
pub open spec fn outranks(s: Seq<MachineView>, j: int, i: int) -> bool {
    &&& s[j].status.available()
    &&& s[j].triplet == s[i].triplet
    &&& (s[j].status.kill_cost() > s[i].status.kill_cost() || (s[j].status.kill_cost()
        == s[i].status.kill_cost() && j < i))
}

/// The number of machines among the first `n` that outrank machine `i`.
pub open spec fn rank(s: Seq<MachineView>, i: int, n: int) -> nat
    decreases n,
{
    if n <= 0 {
        0
    } else {
        rank(s, i, n - 1) + if outranks(s, n - 1, i) {
            1nat
        } else {
            0
        }
    }
}

/// Machine `i` is surplus under demand `requested`: it is available and at
/// least as many machines of its type, all kept in preference to it, already
/// cover the demand for that type.
pub open spec fn surplus(s: Seq<MachineView>, requested: Seq<TripletView>, i: int) -> bool {
    s[i].status.available() && rank(s, i, s.len() as int) >= count_of(requested, s[i].triplet)
}

/// How many more machines of type `t` the demand asks for than `s` offers.
pub open spec fn shortfall(s: Seq<MachineView>, requested: Seq<TripletView>, t: TripletView) -> nat {
    if count_of(requested, t) > available_count(s, t) {
        (count_of(requested, t) - available_count(s, t)) as nat
    } else {
        0
    }
}

pub proof fn lemma_count_positive(s: Seq<TripletView>, k: int)
    requires
        0 <= k < s.len(),
    ensures
        count_of(s, s[k]) > 0,
    decreases s.len(),
{
    if k < s.len() - 1 {
        lemma_count_positive(s.drop_last(), k);
    }
}

pub proof fn lemma_count_push(s: Seq<TripletView>, x: TripletView, t: TripletView)
    ensures
        count_of(s.push(x), t) == count_of(s, t) + if x == t {
            1nat
        } else {
            0
        },
{
    assert(s.push(x).drop_last() =~= s);
}

/// The fleet after the surplus machines under `requested` were killed.
pub open spec fn reduced(s: Seq<MachineView>, requested: Seq<TripletView>) -> Seq<MachineView> {
    Seq::new(
        s.len(),
        |i: int|
            if surplus(s, requested, i) {
                s[i].with_status(Status::Stopped)
            } else {
                s[i]
            },
    )
}

pub open spec fn triplets_of(s: Seq<MachineView>) -> Seq<TripletView> {
    s.map_values(|m: MachineView| m.triplet)
}

/// Seconds that machine `m` has spent starting by time `now`.
pub open spec fn starting_for(m: MachineView, now: u64) -> u64 {
    if now >= m.started.unwrap() {
        (now - m.started.unwrap()) as u64
    } else {
        0
    }
}

/// Machine `m` has been starting for longer than `timeout` seconds.
pub open spec fn boot_timed_out(m: MachineView, now: u64, timeout: u64) -> bool {
    m.status == Status::Starting && starting_for(m, now) > timeout
}

/// `x` reports a machine of `s` that failed to boot in time.
pub open spec fn reports_timed_out(s: Seq<MachineView>, x: Killed, now: u64, timeout: u64) -> bool {
    exists|i: int|
        0 <= i < s.len() && boot_timed_out(#[trigger] s[i], now, timeout) && x.triplet@
            == s[i].triplet && x.runner_name@ == s[i].runner_name
}

/// What the janitor makes of a runner that the platform lists.
#[derive(Clone, Copy, Debug, PartialEq, Eq, Structural)]
pub enum RunnerVerdict {
    /// Not one of ours, or its state is not understood.
    Ignored,
    /// One of our live machines; its feedback was applied.
    Known,
    /// Named like ours but unknown here, offline and idle: to be removed.
    Orphan,
    /// Named like ours and unknown here, but online or busy: left alone.
    Unknown,
}

/// After the surplus is killed and machines are added only where the demand
/// falls short, a type that is not requested has no available machine.
pub proof fn lemma_unrequested_unavailable(s: Seq<MachineView>, requested: Seq<TripletView>, f: Seq<MachineView>)
    requires
        f.len() >= s.len(),
        f.take(s.len() as int) == reduced(s, requested),
        forall|t: TripletView|
            #[trigger] count_of(triplets_of(f.skip(s.len() as int)), t) <= shortfall(
                reduced(s, requested),
                requested,
                t,
            ),
    ensures
        forall|i: int|
            0 <= i < f.len() && count_of(requested, (#[trigger] f[i]).triplet) == 0
                ==> !f[i].status.available(),
{
    let n0 = s.len() as int;
    assert forall|i: int|
        0 <= i < f.len() && count_of(requested, (#[trigger] f[i]).triplet) == 0 implies !f[i].status.available() by {
        let t = f[i].triplet;
        if i < n0 {
            assert(f[i] == f.take(n0)[i]);
            assert(rank(s, i, s.len() as int) >= 0);
        } else {
            let news = triplets_of(f.skip(n0));
            assert(news[i - n0] == t);
            lemma_count_positive(news, i - n0);
        }
    }
}

/// The first live machine of type `t` registered as `runner_name`.
pub open spec fn first_live_runner(s: Seq<MachineView>, t: TripletView, runner_name: Seq<char>) -> Option<int> {
    if exists|i: int| 0 <= i < s.len() && is_live_runner(#[trigger] s[i], t, runner_name) {
        Some(
            choose|i: int|
                0 <= i < s.len() && is_live_runner(#[trigger] s[i], t, runner_name) && forall|j: int|
                    0 <= j < i ==> !is_live_runner(#[trigger] s[j], t, runner_name),
        )
    } else {
        None
    }
}

/// The fleet after runner feedback for machine `runner_name` of type `t`:
/// the first live such machine takes it, and without one nothing changes.
pub open spec fn fleet_feedback(
    s: Seq<MachineView>,
    t: TripletView,
    runner_name: Seq<char>,
    online: Option<bool>,
    busy: bool,
) -> Seq<MachineView> {
    match first_live_runner(s, t, runner_name) {
        Some(i) => s.update(i, feedback_view(s[i], online, busy)),
        None => s,
    }
}

/// The first index with a property is the only index that has it and no
/// earlier index has it.
pub proof fn lemma_first_live_runner(s: Seq<MachineView>, t: TripletView, runner_name: Seq<char>, i: int)
    requires
        0 <= i < s.len(),
        is_live_runner(s[i], t, runner_name),
        forall|j: int| 0 <= j < i ==> !is_live_runner(#[trigger] s[j], t, runner_name),
    ensures
        first_live_runner(s, t, runner_name) == Some(i),
{
    let w = choose|w: int|
        0 <= w < s.len() && is_live_runner(#[trigger] s[w], t, runner_name) && forall|j: int|
            0 <= j < w ==> !is_live_runner(#[trigger] s[j], t, runner_name);
    assert(is_live_runner(s[i], t, runner_name));
    if w < i {
        assert(!is_live_runner(s[w], t, runner_name));
    } else if w > i {
        assert(!is_live_runner(s[i], t, runner_name));
    }
}

/// The machines never hold more RAM than the host offers, in every state that
/// the methods of `Manager` reach: each of them keeps `wf`.
pub proof fn lemma_ram_budget(m: &Manager)
    requires
        m.wf(),
    ensures
        total_consumed(m@.machines) <= m@.host_ram,
{
}

/// No two machines of the fleet share a run token.
pub proof fn lemma_run_tokens_unique(m: &Manager, i: int, j: int)
    requires
        m.wf(),
        0 <= i < m@.machines.len(),
        0 <= j < m@.machines.len(),
        i != j,
    ensures
        m@.machines[i].run_token != m@.machines[j].run_token,
{
}

/// Every machine of the fleet in `Registered` holds its runner configuration.
pub proof fn lemma_registered_machines_have_jit_config(m: &Manager, i: int)
    requires
        m.wf(),
        0 <= i < m@.machines.len(),
        m@.machines[i].status == Status::Registered,
    ensures
        m@.machines[i].jit.is_some(),
{
    assert(m@.machines[i].wf());
}

/// Every machine that outranks `i` also outranks `j`, a machine of the same
/// type that is cheaper to kill; and `i` itself outranks `j`.
proof fn lemma_rank_cheaper(s: Seq<MachineView>, i: int, j: int, n: int)
    requires
        0 <= i < s.len(),
        0 <= j < s.len(),
        0 <= n <= s.len(),
        s[i].status.available(),
        s[i].triplet == s[j].triplet,
        s[j].status.kill_cost() < s[i].status.kill_cost(),
    ensures
        rank(s, j, n) >= rank(s, i, n) + if i < n {
            1nat
        } else {
            0
        },
    decreases n,
{
    if n > 0 {
        lemma_rank_cheaper(s, i, j, n - 1);
    }
}

/// Reducing the supply kills the machines that are cheapest to kill: a killed
/// machine costs no more to kill than any machine of its type that stays
/// available.
pub proof fn lemma_cheapest_killed_first(s: Seq<MachineView>, requested: Seq<TripletView>, i: int, j: int)
    requires
        0 <= i < s.len(),
        0 <= j < s.len(),
        surplus(s, requested, i),
        !surplus(s, requested, j),
        s[j].status.available(),
        s[i].triplet == s[j].triplet,
    ensures
        s[i].status.kill_cost() <= s[j].status.kill_cost(),
{
    if s[j].status.kill_cost() < s[i].status.kill_cost() {
        lemma_rank_cheaper(s, i, j, s.len() as int);
    }
}

/// `x` reports the killing of machine `m`.
pub open spec fn reports(x: Killed, m: MachineView) -> bool {
    &&& x.triplet@ == m.triplet
    &&& x.runner_name@ == m.runner_name
    &&& x.runner_id == match m.jit {
        Some(j) => Some(j.1),
        None => None::<u64>,
    }
}

/// `x` reports the killing of a surplus machine of `s` under `requested`.
pub open spec fn reports_surplus(s: Seq<MachineView>, requested: Seq<TripletView>, x: Killed) -> bool {
    exists|i: int| 0 <= i < s.len() && surplus(s, requested, i) && reports(x, #[trigger] s[i])
}

/// Some entry of `v` reports the killing of `m`.
pub open spec fn reported(v: Seq<Killed>, m: MachineView) -> bool {
    exists|q: int| 0 <= q < v.len() && reports(#[trigger] v[q], m)
}

/// No machine of `s` holds run token `token`.
pub open spec fn token_free(s: Seq<MachineView>, token: Seq<char>) -> bool {
    forall|j: int| 0 <= j < s.len() ==> (#[trigger] s[j]).run_token != token
}

/// Runner name suffixes and run tokens, as drawn.
pub open spec fn drawn_view(d: Seq<(String, String)>) -> Seq<(Seq<char>, Seq<char>)> {
    d.map_values(|p: (String, String)| (p.0@, p.1@))
}

/// The positions of `needed` that get a machine when it is added to fleet
/// `s` with the drawn `(suffix, token)` pairs: those whose type `cfg`
/// configures and whose token no machine of `s` and no earlier added
/// machine holds.
pub open spec fn accepted(
    s: Seq<MachineView>,
    needed: Seq<TripletView>,
    cfg: ConfigFile,
    drawn: Seq<(Seq<char>, Seq<char>)>,
) -> Seq<int>
    decreases needed.len(),
{
    if needed.len() == 0 {
        Seq::empty()
    } else {
        let prev = accepted(s, needed.drop_last(), cfg, drawn);
        if acceptable(s, needed, cfg, drawn, prev) {
            prev.push(needed.len() - 1)
        } else {
            prev
        }
    }
}

/// The last position of `needed` gets a machine after those of `prev`: its
/// type is configured and no machine of `s` or of `prev` holds its token.
#[verifier::opaque]
pub open spec fn acceptable(
    s: Seq<MachineView>,
    needed: Seq<TripletView>,
    cfg: ConfigFile,
    drawn: Seq<(Seq<char>, Seq<char>)>,
    prev: Seq<int>,
) -> bool {
    let k = needed.len() - 1;
    &&& cfg.machine_config_spec(needed[k]).is_some()
    &&& token_free(s, drawn[k].1)
    &&& forall|q: int| 0 <= q < prev.len() ==> drawn[#[trigger] prev[q]].1 != drawn[k].1
}

/// `m` is the new machine of type `t` with runner suffix and run token `d`.
pub open spec fn new_machine(m: MachineView, t: TripletView, d: (Seq<char>, Seq<char>), cfg: ConfigFile) -> bool {
    &&& m.triplet == t
    &&& m.runner_name == crate::machine::runner_name_spec(t.2, d.0)
    &&& m.run_token == d.1
    &&& m.status == Status::Requested
    &&& cfg.machine_config_spec(t).is_some()
    &&& m.ram_required == cfg.machine_config_spec(t).unwrap().ram.0
    &&& m.jit.is_none()
    &&& m.run_dir.is_none()
    &&& m.started.is_none()
}

/// `name` is `forrest-<machine_name>-` followed by sixteen ASCII letters or digits.
pub open spec fn generated_runner_name(name: Seq<char>, machine_name: Seq<char>) -> bool {
    exists|suffix: Seq<char>|
        suffix.len() == 16 && alphanumeric_text(suffix) && name == #[trigger] crate::machine::runner_name_spec(
            machine_name,
            suffix,
        )
}

/// A machine as `update_demand` adds it: requested, of a configured type with
/// that type's RAM, with a generated runner name and a run token of sixteen
/// ASCII letters or digits.
pub open spec fn fresh_machine(m: MachineView, cfg: ConfigFile) -> bool {
    &&& m.status == Status::Requested
    &&& cfg.machine_config_spec(m.triplet).is_some()
    &&& m.ram_required == cfg.machine_config_spec(m.triplet).unwrap().ram.0
    &&& generated_runner_name(m.runner_name, m.triplet.2)
    &&& m.run_token.len() == 16
    &&& alphanumeric_text(m.run_token)
}

/// The types of the accepted positions, in order.
pub open spec fn accepted_types(
    s: Seq<MachineView>,
    needed: Seq<TripletView>,
    cfg: ConfigFile,
    drawn: Seq<(Seq<char>, Seq<char>)>,
) -> Seq<TripletView> {
    Seq::new(accepted(s, needed, cfg, drawn).len(), |q: int| needed[accepted(s, needed, cfg, drawn)[q]])
}

/// The accepted positions are in range and increasing, and they select no
/// type more often than `needed` holds it.
pub proof fn lemma_accepted_facts(
    s: Seq<MachineView>,
    needed: Seq<TripletView>,
    cfg: ConfigFile,
    drawn: Seq<(Seq<char>, Seq<char>)>,
)
    ensures
        forall|q: int|
            0 <= q < accepted(s, needed, cfg, drawn).len() ==> 0 <= #[trigger] accepted(
                s,
                needed,
                cfg,
                drawn,
            )[q] < needed.len(),
        forall|t: TripletView|
            #[trigger] count_of(accepted_types(s, needed, cfg, drawn), t) <= count_of(needed, t),
    decreases needed.len(),
{
    if needed.len() > 0 {
        let p = needed.drop_last();
        let prev = accepted(s, p, cfg, drawn);
        lemma_accepted_facts(s, p, cfg, drawn);
        let acc = accepted(s, needed, cfg, drawn);
        let pm = accepted_types(s, p, cfg, drawn);
        let m = accepted_types(s, needed, cfg, drawn);
        if acc.len() > prev.len() {
            assert(m =~= pm.push(needed.last())) by {
                assert forall|q: int| 0 <= q < prev.len() implies m[q] == pm[q] by {
                    assert(acc[q] == prev[q]);
                    assert(p[prev[q]] == needed[prev[q]]);
                }
            }
            assert forall|t: TripletView| #[trigger] count_of(m, t) <= count_of(needed, t) by {
                lemma_count_push(pm, needed.last(), t);
            }
        } else {
            assert(m =~= pm) by {
                assert forall|q: int| 0 <= q < prev.len() implies m[q] == pm[q] by {
                    assert(p[prev[q]] == needed[prev[q]]);
                }
            }
        }
    }
}

/// The machines added after position `n0` of `f` are fresh, and their types
/// are the accepted types.
#[verifier::rlimit(60)]
proof fn lemma_added_machines_fresh(
    f: Seq<MachineView>,
    n0: int,
    s1: Seq<MachineView>,
    nv: Seq<TripletView>,
    cfg: ConfigFile,
    dv: Seq<(Seq<char>, Seq<char>)>,
)
    requires
        0 <= n0 <= f.len(),
        f.len() == n0 + accepted(s1, nv, cfg, dv).len(),
        forall|k: int|
            0 <= k < dv.len() ==> (#[trigger] dv[k]).0.len() == 16 && alphanumeric_text(dv[k].0)
                && dv[k].1.len() == 16 && alphanumeric_text(dv[k].1),
        dv.len() == nv.len(),
        forall|q: int|
            0 <= q < accepted(s1, nv, cfg, dv).len() ==> new_machine(
                #[trigger] f[n0 + q],
                nv[accepted(s1, nv, cfg, dv)[q]],
                dv[accepted(s1, nv, cfg, dv)[q]],
                cfg,
            ),
    ensures
        forall|i: int| n0 <= i < f.len() ==> fresh_machine(#[trigger] f[i], cfg),
        triplets_of(f.skip(n0)) == accepted_types(s1, nv, cfg, dv),
{
    let acc = accepted(s1, nv, cfg, dv);
    lemma_accepted_facts(s1, nv, cfg, dv);
    assert forall|i: int| n0 <= i < f.len() implies fresh_machine(#[trigger] f[i], cfg) by {
        let q = i - n0;
        let kk = acc[q];
        assert(0 <= kk < nv.len());
        let d = dv[kk];
        assert(new_machine(f[n0 + q], nv[kk], d, cfg));
        assert(d.0.len() == 16 && alphanumeric_text(d.0) && d.1.len() == 16 && alphanumeric_text(d.1));
        lemma_fresh_from_new(f[i], nv[kk], d, cfg);
    }
    assert forall|q: int| 0 <= q < acc.len() implies #[trigger] triplets_of(f.skip(n0))[q]
        == accepted_types(s1, nv, cfg, dv)[q] by {
        assert(new_machine(f[n0 + q], nv[acc[q]], dv[acc[q]], cfg));
        assert(f.skip(n0)[q] == f[n0 + q]);
    }
    assert(triplets_of(f.skip(n0)) =~= accepted_types(s1, nv, cfg, dv));
}

proof fn lemma_fresh_from_new(m: MachineView, t: TripletView, d: (Seq<char>, Seq<char>), cfg: ConfigFile)
    requires
        new_machine(m, t, d, cfg),
        d.0.len() == 16,
        alphanumeric_text(d.0),
        d.1.len() == 16,
        alphanumeric_text(d.1),
    ensures
        fresh_machine(m, cfg),
{
    assert(m.runner_name == crate::machine::runner_name_spec(m.triplet.2, d.0));
}

/// On an empty fleet, one configured request is met by one machine.
proof fn lemma_single_request(
    s0: Seq<MachineView>,
    rv: Seq<TripletView>,
    s1: Seq<MachineView>,
    nv: Seq<TripletView>,
    cfg: ConfigFile,
    dv: Seq<(Seq<char>, Seq<char>)>,
    f: Seq<MachineView>,
)
    requires
        s0.len() == 0,
        rv.len() == 1,
        cfg.machine_config_spec(rv[0]).is_some(),
        s1 == reduced(s0, rv),
        nv.len() <= rv.len(),
        forall|t: TripletView| #[trigger] count_of(nv, t) == shortfall(s1, rv, t),
        f.len() == s1.len() + accepted(s1, nv, cfg, dv).len(),
        forall|q: int|
            0 <= q < accepted(s1, nv, cfg, dv).len() ==> new_machine(
                #[trigger] f[s1.len() + q],
                nv[accepted(s1, nv, cfg, dv)[q]],
                dv[accepted(s1, nv, cfg, dv)[q]],
                cfg,
            ),
    ensures
        f.len() == 1,
        f[0].triplet == rv[0],
{
    let t = rv[0];
    assert(rv.drop_last() =~= Seq::<TripletView>::empty());
    assert(count_of(rv.drop_last(), t) == 0);
    assert(count_of(rv, t) == 1);
    assert(s1 =~= Seq::<MachineView>::empty());
    assert(available_count(s1, t) == 0);
    assert(count_of(nv, t) == 1);
    if nv.len() == 0 {
        assert(count_of(nv, t) == 0);
    }
    assert(nv.len() == 1);
    assert(nv.drop_last() =~= Seq::<TripletView>::empty());
    assert(count_of(nv.drop_last(), t) == 0);
    assert(nv[0] == t);
    let prev = accepted(s1, nv.drop_last(), cfg, dv);
    assert(prev =~= Seq::<int>::empty());
    reveal(acceptable);
    assert(acceptable(s1, nv, cfg, dv, prev));
    assert(accepted(s1, nv, cfg, dv) == prev.push(0));
    assert(new_machine(f[s1.len() as int + 0], nv[0], dv[0], cfg));
}

/// A machine that was killed, for the caller to clean up after: its background
/// work to cancel and, where one was registered, its runner to remove.
pub struct Killed {
    pub triplet: Triplet,
    pub runner_name: String,
    pub runner_id: Option<u64>,
}

/// What a scheduling pass asks the caller to do for one machine.
#[derive(Clone, Copy, Debug, PartialEq, Eq, Structural)]
pub enum Reschedule {
    /// Registration as a runner was begun: create the runner configuration.
    Register,
    /// The machine fits in the free RAM: prepare its run directory and start it.
    Prepare,
    /// The machine does not fit in the free RAM now.
    Postpone,
    /// Nothing to do in the machine's state.
    Nothing,
}

pub struct ManagerView {
    pub machines: Seq<MachineView>,
    pub host_ram: u64,
}

/// Every machine, live or stopped but not yet pruned, and the RAM the host
/// offers them.
pub struct Manager {
    host_ram: u64,
    machines: Vec<Machine>,
}

impl View for Manager {
    type V = ManagerView;

    closed spec fn view(&self) -> ManagerView {
        ManagerView { machines: self.machines@.map_values(|m: Machine| m@), host_ram: self.host_ram }
    }
}

impl Manager {
    pub open spec fn wf(&self) -> bool {
        fleet_wf(self@.machines, self@.host_ram)
    }

    proof fn lemma_view(&self)
        ensures
            self@.machines.len() == self.machines@.len(),
            forall|i: int| 0 <= i < self.machines@.len() ==> #[trigger] self@.machines[i] == self.machines@[i]@,
    {
    }

    /// An empty fleet on a host with `host_ram` bytes.
    pub fn new(host_ram: u64) -> (r: Manager)
        ensures
            r.wf(),
            r@.machines.len() == 0,
            r@.host_ram == host_ram,
    {
        let r = Manager { host_ram, machines: Vec::new() };
        assert(r@.machines =~= Seq::<MachineView>::empty());
        r
    }

    pub fn len(&self) -> (r: usize)
        ensures
            r == self@.machines.len(),
    {
        self.machines.len()
    }

    pub fn machine(&self, i: usize) -> (r: &Machine)
        requires
            i < self@.machines.len(),
        ensures
            r@ == self@.machines[i as int],
    {
        &self.machines[i]
    }

    /// The RAM not held by any machine.
    pub fn ram_available(&self) -> (r: u64)
        requires
            self.wf(),
        ensures
            r == self@.host_ram - total_consumed(self@.machines),
    {
        let ghost s = self@.machines;
        let mut used: u64 = 0;
        let mut i: usize = 0;
        while i < self.machines.len()
            invariant
                s == self@.machines,
                self.wf(),
                i <= s.len(),
                used == total_consumed(s.take(i as int)),
            decreases s.len() - i,
        {
            proof {
                self.lemma_view();
                assert(s.take(i + 1).drop_last() =~= s.take(i as int));
                lemma_total_prefix(s, i + 1);
            }
            used = used + self.machines[i].ram_consumed();
            i = i + 1;
        }
        assert(s.take(i as int) =~= s);
        self.host_ram - used
    }

    /// The first live machine that holds run token `token`.
    pub fn machine_by_run_token(&self, token: &str) -> (r: Option<usize>)
        ensures
            r.is_some() ==> {
                let i = r.unwrap() as int;
                &&& 0 <= i < self@.machines.len()
                &&& self@.machines[i].status != Status::Stopped
                &&& self@.machines[i].run_token == token@
                &&& forall|j: int|
                    0 <= j < i ==> !((#[trigger] self@.machines[j]).status != Status::Stopped
                        && self@.machines[j].run_token == token@)
            },
            r.is_none() ==> forall|j: int|
                0 <= j < self@.machines.len() ==> !((#[trigger] self@.machines[j]).status
                    != Status::Stopped && self@.machines[j].run_token == token@),
    {
        let mut i: usize = 0;
        while i < self.machines.len()
            invariant
                i <= self@.machines.len(),
                forall|j: int|
                    0 <= j < i ==> !((#[trigger] self@.machines[j]).status != Status::Stopped
                        && self@.machines[j].run_token == token@),
            decreases self.machines.len() - i,
        {
            proof {
                self.lemma_view();
            }
            let m = &self.machines[i];
            if !m.status().is_stopped() && crate::text::str_equal(m.run_token(), token) {
                return Some(i);
            }
            i = i + 1;
        }
        proof {
            self.lemma_view();
        }
        None
    }

    /// The first machine of type `triplet` registered as `runner_name`; with
    /// `live_only`, the first that has not stopped.
    pub fn find_machine(&self, triplet: &Triplet, runner_name: &str, live_only: bool) -> (r: Option<usize>)
        ensures
            r.is_some() ==> {
                let i = r.unwrap() as int;
                &&& 0 <= i < self@.machines.len()
                &&& is_runner(self@.machines[i], triplet@, runner_name@)
                &&& live_only ==> self@.machines[i].status != Status::Stopped
                &&& forall|j: int|
                    0 <= j < i ==> !(is_runner(#[trigger] self@.machines[j], triplet@, runner_name@)
                        && (live_only ==> self@.machines[j].status != Status::Stopped))
            },
            r.is_none() ==> forall|j: int|
                0 <= j < self@.machines.len() ==> !(is_runner(
                    #[trigger] self@.machines[j],
                    triplet@,
                    runner_name@,
                ) && (live_only ==> self@.machines[j].status != Status::Stopped)),
    {
        let mut i: usize = 0;
        while i < self.machines.len()
            invariant
                i <= self@.machines.len(),
                forall|j: int|
                    0 <= j < i ==> !(is_runner(#[trigger] self@.machines[j], triplet@, runner_name@)
                        && (live_only ==> self@.machines[j].status != Status::Stopped)),
            decreases self.machines.len() - i,
        {
            proof {
                self.lemma_view();
            }
            let m = &self.machines[i];
            if (!live_only || !m.status().is_stopped()) && m.triplet().same(triplet)
                && crate::text::str_equal(m.runner_name(), runner_name) {
                return Some(i);
            }
            i = i + 1;
        }
        proof {
            self.lemma_view();
        }
        None
    }

    /// Forwards runner feedback to the live machine of type `triplet` named
    /// `runner_name`. Returns whether there is one.
    pub fn status_feedback(&mut self, triplet: &Triplet, runner_name: &str, online: Option<bool>, busy: bool) -> (r: bool)
        requires
            old(self).wf(),
        ensures
            final(self).wf(),
            final(self)@.host_ram == old(self)@.host_ram,
            r == first_live_runner(old(self)@.machines, triplet@, runner_name@).is_some(),
            final(self)@.machines == fleet_feedback(
                old(self)@.machines,
                triplet@,
                runner_name@,
                online,
                busy,
            ),
    {
        match self.find_machine(triplet, runner_name, true) {
            Some(i) => {
                let ghost before = self@.machines;
                self.machines[i].status_feedback(online, busy);
                proof {
                    self.lemma_view();
                    assert(self@.machines =~= before.update(i as int, self.machines@[i as int]@));
                    lemma_feedback_keeps_guest(before[i as int].status, online, busy);
                    lemma_fleet_update(before, self.host_ram, i as int, self.machines@[i as int]@);
                    lemma_first_live_runner(before, triplet@, runner_name@, i as int);
                }
                true
            },
            None => {
                assert(!exists|j: int|
                    0 <= j < self@.machines.len() && is_live_runner(
                        #[trigger] self@.machines[j],
                        triplet@,
                        runner_name@,
                    ));
                false
            },
        }
    }

    /// Kills machine `i`; see `Machine::kill`.
    pub fn kill_machine(&mut self, i: usize) -> (r: Option<Killed>)
        requires
            old(self).wf(),
            i < old(self)@.machines.len(),
        ensures
            final(self).wf(),
            final(self)@.host_ram == old(self)@.host_ram,
            old(self)@.machines[i as int].status == Status::Stopped ==> final(self)@.machines
                == old(self)@.machines && r.is_none(),
            old(self)@.machines[i as int].status != Status::Stopped ==> final(self)@.machines
                == old(self)@.machines.update(
                i as int,
                old(self)@.machines[i as int].with_status(Status::Stopped),
            ) && r.is_some() && r.unwrap().triplet@ == old(self)@.machines[i as int].triplet
                && r.unwrap().runner_name@ == old(self)@.machines[i as int].runner_name
                && r.unwrap().runner_id == match old(self)@.machines[i as int].jit {
                Some(j) => Some(j.1),
                None => None::<u64>,
            },
    {
        proof {
            self.lemma_view();
        }
        if self.machines[i].status().is_stopped() {
            return None;
        }
        let ghost before = self@.machines;
        let runner_id = self.machines[i].kill();
        proof {
            self.lemma_view();
            assert(self@.machines =~= before.update(i as int, self.machines@[i as int]@));
            lemma_fleet_update(before, self.host_ram, i as int, self.machines@[i as int]@);
        }
        let triplet = self.machines[i].triplet().duplicate();
        let runner_name = self.machines[i].runner_name().to_owned();
        Some(Killed { triplet, runner_name, runner_id })
    }

    /// The outcome of the runner registration of machine `i`; see
    /// `Machine::registration_finished`.
    pub fn registration_finished(&mut self, i: usize, jit_config: Option<JitConfig>)
        requires
            old(self).wf(),
            i < old(self)@.machines.len(),
        ensures
            final(self).wf(),
            final(self)@.host_ram == old(self)@.host_ram,
            final(self)@.machines == old(self)@.machines.update(i as int, final(self)@.machines[i as int]),
            old(self)@.machines[i as int].status != Status::Registering ==> final(self)@.machines
                == old(self)@.machines,
            old(self)@.machines[i as int].status == Status::Registering && jit_config.is_some()
                ==> final(self)@.machines[i as int] == (MachineView {
                status: Status::Registered,
                jit: crate::machine::jit_view(jit_config),
                ..old(self)@.machines[i as int]
            }),
            old(self)@.machines[i as int].status == Status::Registering && jit_config.is_none()
                ==> final(self)@.machines[i as int] == old(self)@.machines[i as int].with_status(
                Status::Stopped,
            ),
    {
        let ghost before = self@.machines;
        proof {
            self.lemma_view();
        }
        self.machines[i].registration_finished(jit_config);
        proof {
            self.lemma_view();
            assert(self@.machines =~= before.update(i as int, self.machines@[i as int]@));
            lemma_fleet_update(before, self.host_ram, i as int, self.machines@[i as int]@);
            if before[i as int].status != Status::Registering {
                assert(self@.machines =~= before);
            }
        }
    }

    /// The runner of machine `i` was removed from the platform.
    pub fn runner_deregistered(&mut self, i: usize)
        requires
            old(self).wf(),
            i < old(self)@.machines.len(),
        ensures
            final(self).wf(),
            final(self)@.host_ram == old(self)@.host_ram,
            old(self)@.machines[i as int].status == Status::Registered ==> final(self)@.machines
                == old(self)@.machines,
            old(self)@.machines[i as int].status != Status::Registered ==> final(self)@.machines
                == old(self)@.machines.update(
                i as int,
                MachineView { jit: None, ..old(self)@.machines[i as int] },
            ),
    {
        let ghost before = self@.machines;
        proof {
            self.lemma_view();
        }
        self.machines[i].runner_deregistered();
        proof {
            self.lemma_view();
            assert(self@.machines =~= before.update(i as int, self.machines@[i as int]@));
            lemma_fleet_update(before, self.host_ram, i as int, self.machines@[i as int]@);
            if before[i as int].status == Status::Registered {
                assert(self@.machines =~= before);
            }
        }
    }

    /// Draws `bytes` from the quota of `artifact` on machine `i`.
    pub fn consume_quota(&mut self, i: usize, artifact: &Artifact, bytes: u64) -> (r: bool)
        requires
            old(self).wf(),
            i < old(self)@.machines.len(),
            artifact.quota_index < old(self)@.machines[i as int].quota.len(),
        ensures
            final(self).wf(),
            final(self)@.host_ram == old(self)@.host_ram,
            r == (bytes <= old(self)@.machines[i as int].quota[artifact.quota_index as int]),
            final(self)@.machines == old(self)@.machines.update(
                i as int,
                MachineView {
                    quota: old(self)@.machines[i as int].quota.update(
                        artifact.quota_index as int,
                        if r {
                            (old(self)@.machines[i as int].quota[artifact.quota_index as int]
                                - bytes) as u64
                        } else {
                            0
                        },
                    ),
                    ..old(self)@.machines[i as int]
                },
            ),
    {
        let ghost before = self@.machines;
        proof {
            self.lemma_view();
        }
        let r = artifact.consume_quota(&mut self.machines[i], bytes);
        proof {
            self.lemma_view();
            assert(self@.machines =~= before.update(i as int, self.machines@[i as int]@));
            lemma_fleet_update(before, self.host_ram, i as int, self.machines@[i as int]@);
        }
        r
    }

    /// How often `t` is requested.
    pub fn demand_for(requested: &Vec<Triplet>, t: &Triplet) -> (r: usize)
        ensures
            r == count_of(triplets_view(requested@), t@),
    {
        let ghost rv = triplets_view(requested@);
        let mut c: usize = 0;
        let mut k: usize = 0;
        while k < requested.len()
            invariant
                rv == triplets_view(requested@),
                k <= requested.len(),
                c == count_of(rv.take(k as int), t@),
                c <= k,
            decreases requested.len() - k,
        {
            assert(rv.take(k + 1).drop_last() =~= rv.take(k as int));
            if requested[k].same(t) {
                c = c + 1;
            }
            k = k + 1;
        }
        assert(rv.take(k as int) =~= rv);
        c
    }

    /// The number of available machines of type `t`.
    pub fn available_of(&self, t: &Triplet) -> (r: usize)
        ensures
            r == available_count(self@.machines, t@),
    {
        let ghost s = self@.machines;
        let mut c: usize = 0;
        let mut k: usize = 0;
        while k < self.machines.len()
            invariant
                s == self@.machines,
                k <= s.len(),
                c == available_count(s.take(k as int), t@),
                c <= k,
            decreases s.len() - k,
        {
            proof {
                self.lemma_view();
            }
            assert(s.take(k + 1).drop_last() =~= s.take(k as int));
            if self.machines[k].status().is_available() && self.machines[k].triplet().same(t) {
                c = c + 1;
            }
            k = k + 1;
        }
        assert(s.take(k as int) =~= s);
        c
    }

    fn rank_of(&self, i: usize) -> (r: usize)
        requires
            i < self@.machines.len(),
        ensures
            r == rank(self@.machines, i as int, self@.machines.len() as int),
    {
        let ghost s = self@.machines;
        proof {
            self.lemma_view();
        }
        let cost = self.machines[i].cost_to_kill();
        let mut c: usize = 0;
        let mut j: usize = 0;
        while j < self.machines.len()
            invariant
                s == self@.machines,
                i < s.len(),
                cost == s[i as int].status.kill_cost(),
                j <= s.len(),
                c == rank(s, i as int, j as int),
                c <= j,
            decreases s.len() - j,
        {
            proof {
                self.lemma_view();
            }
            let m = &self.machines[j];
            let cj = m.cost_to_kill();
            if m.status().is_available() && m.triplet().same(self.machines[i].triplet()) && (cj
                > cost || (cj == cost && j < i)) {
                c = c + 1;
            }
            j = j + 1;
        }
        c
    }

    /// Kills the surplus machines: of each type, the available machines beyond
    /// the number requested, the cheapest to kill first.
    pub fn reduce_supply(&mut self, requested: &Vec<Triplet>) -> (r: Vec<Killed>)
        requires
            old(self).wf(),
        ensures
            forall|k: int|
                0 <= k < r@.len() ==> reports_surplus(
                    old(self)@.machines,
                    triplets_view(requested@),
                    #[trigger] r@[k],
                ),
            forall|i: int|
                0 <= i < old(self)@.machines.len() && surplus(
                    old(self)@.machines,
                    triplets_view(requested@),
                    i,
                ) ==> reported(r@, #[trigger] old(self)@.machines[i]),
            final(self).wf(),
            final(self)@.host_ram == old(self)@.host_ram,
            final(self)@.machines.len() == old(self)@.machines.len(),
            forall|i: int|
                0 <= i < old(self)@.machines.len() ==> #[trigger] final(self)@.machines[i] == if surplus(
                    old(self)@.machines,
                    triplets_view(requested@),
                    i,
                ) {
                    old(self)@.machines[i].with_status(Status::Stopped)
                } else {
                    old(self)@.machines[i]
                },
    {
        let ghost s = self@.machines;
        let ghost rv = triplets_view(requested@);
        let n = self.machines.len();
        let mut doomed: Vec<bool> = Vec::new();
        let mut i: usize = 0;
        while i < n
            invariant
                s == self@.machines,
                rv == triplets_view(requested@),
                n == s.len(),
                i <= n,
                doomed@.len() == i,
                forall|j: int| 0 <= j < i ==> doomed@[j] == surplus(s, rv, j),
            decreases n - i,
        {
            proof {
                self.lemma_view();
            }
            let available = self.machines[i].status().is_available();
            let d = if available {
                Manager::demand_for(requested, self.machines[i].triplet())
            } else {
                0
            };
            let doom = available && self.rank_of(i) >= d;
            doomed.push(doom);
            i = i + 1;
        }
        let mut killed: Vec<Killed> = Vec::new();
        let mut k: usize = 0;
        while k < n
            invariant
                self.wf(),
                self@.host_ram == old(self)@.host_ram,
                s == old(self)@.machines,
                n == s.len(),
                self@.machines.len() == n,
                k <= n,
                doomed@.len() == n,
                forall|j: int| 0 <= j < n ==> doomed@[j] == surplus(s, rv, j),
                forall|j: int|
                    0 <= j < k ==> #[trigger] self@.machines[j] == if surplus(s, rv, j) {
                        s[j].with_status(Status::Stopped)
                    } else {
                        s[j]
                    },
                forall|j: int| k <= j < n ==> #[trigger] self@.machines[j] == s[j],
                rv == triplets_view(requested@),
                forall|q: int| 0 <= q < killed@.len() ==> reports_surplus(s, rv, #[trigger] killed@[q]),
                forall|i: int| 0 <= i < k && surplus(s, rv, i) ==> reported(killed@, #[trigger] s[i]),
            decreases n - k,
        {
            let ghost before_killed = killed@;
            if doomed[k] {
                proof {
                    assert(s[k as int].status.available());
                    assert(self@.machines[k as int].status != Status::Stopped);
                }
                let ghost before = self@.machines;
                match self.kill_machine(k) {
                    Some(x) => {
                        killed.push(x);
                        proof {
                            let last = killed@.len() - 1;
                            assert(reports(killed@[last], s[k as int]));
                            assert forall|q: int|
                                0 <= q < killed@.len() implies reports_surplus(s, rv, #[trigger] killed@[q]) by {
                                if q < before_killed.len() {
                                    assert(killed@[q] == before_killed[q]);
                                } else {
                                    assert(surplus(s, rv, k as int) && reports(killed@[q], s[k as int]));
                                }
                            }
                            assert forall|i: int|
                                0 <= i < k + 1 && surplus(s, rv, i) implies reported(killed@, #[trigger] s[i]) by {
                                if i < k {
                                    assert(reported(before_killed, s[i]));
                                    let q = choose|q: int| 0 <= q < before_killed.len() && reports(#[trigger] before_killed[q], s[i]);
                                    assert(killed@[q] == before_killed[q]);
                                } else {
                                    assert(reports(killed@[last], s[i]));
                                }
                            }
                        }
                    },
                    None => {},
                }
                assert(self@.machines[k as int] == s[k as int].with_status(Status::Stopped));
            }
            k = k + 1;
        }
        killed
    }

    /// The machines to add so that the available machines of each type meet
    /// the demand: `shortfall` copies of each type, in order of request.
    pub fn machines_needed(&self, requested: &Vec<Triplet>) -> (r: Vec<Triplet>)
        ensures
            r@.len() <= requested@.len(),
            forall|t: TripletView|
                #[trigger] count_of(triplets_view(r@), t) == shortfall(
                    self@.machines,
                    triplets_view(requested@),
                    t,
                ),
    {
        let ghost rv = triplets_view(requested@);
        let mut r: Vec<Triplet> = Vec::new();
        let mut k: usize = 0;
        assert(rv.take(0) =~= Seq::<TripletView>::empty());
        assert(triplets_view(r@) =~= Seq::<TripletView>::empty());
        while k < requested.len()
            invariant
                rv == triplets_view(requested@),
                k <= requested.len(),
                r@.len() <= k,
                forall|t: TripletView|
                    #[trigger] count_of(triplets_view(r@), t) == if count_of(rv.take(k as int), t)
                        > available_count(self@.machines, t) {
                        (count_of(rv.take(k as int), t) - available_count(self@.machines, t)) as nat
                    } else {
                        0
                    },
            decreases requested.len() - k,
        {
            let t = &requested[k];
            let ghost tv = t@;
            let ghost prev = triplets_view(r@);
            let seen = Manager::demand_for_prefix(requested, k, t);
            let avail = self.available_of(t);
            assert(rv.take(k + 1) =~= rv.take(k as int).push(tv));
            if seen >= avail {
                let c = t.duplicate();
                r.push(c);
                assert(triplets_view(r@) =~= prev.push(tv));
            }
            assert forall|u: TripletView|
                #[trigger] count_of(triplets_view(r@), u) == if count_of(rv.take(k + 1), u)
                    > available_count(self@.machines, u) {
                    (count_of(rv.take(k + 1), u) - available_count(self@.machines, u)) as nat
                } else {
                    0
                } by {
                lemma_count_push(rv.take(k as int), tv, u);
                lemma_count_push(prev, tv, u);
            }
            k = k + 1;
        }
        assert(rv.take(k as int) =~= rv);
        r
    }

    /// How often `t` occurs among the first `k` requests.
    fn demand_for_prefix(requested: &Vec<Triplet>, k: usize, t: &Triplet) -> (r: usize)
        requires
            k <= requested@.len(),
        ensures
            r == count_of(triplets_view(requested@).take(k as int), t@),
    {
        let ghost rv = triplets_view(requested@);
        let mut c: usize = 0;
        let mut j: usize = 0;
        while j < k
            invariant
                rv == triplets_view(requested@),
                k <= requested.len(),
                j <= k,
                c == count_of(rv.take(j as int), t@),
                c <= j,
            decreases k - j,
        {
            assert(rv.take(j + 1).drop_last() =~= rv.take(j as int));
            if requested[j].same(t) {
                c = c + 1;
            }
            j = j + 1;
        }
        c
    }

    /// Whether some machine holds run token `token`.
    pub fn token_in_use(&self, token: &str) -> (r: bool)
        ensures
            r == exists|j: int|
                0 <= j < self@.machines.len() && (#[trigger] self@.machines[j]).run_token == token@,
    {
        let mut i: usize = 0;
        while i < self.machines.len()
            invariant
                i <= self@.machines.len(),
                forall|j: int| 0 <= j < i ==> (#[trigger] self@.machines[j]).run_token != token@,
            decreases self.machines.len() - i,
        {
            proof {
                self.lemma_view();
            }
            if str_equal(self.machines[i].run_token(), token) {
                assert(self@.machines[i as int].run_token == token@);
                return true;
            }
            i = i + 1;
        }
        proof {
            self.lemma_view();
        }
        false
    }

    /// Adds a new machine that has not started and whose run token no other
    /// machine holds.
    pub fn add_machine(&mut self, m: Machine)
        requires
            old(self).wf(),
            m.wf(),
            !m@.status.has_guest(),
            forall|j: int|
                0 <= j < old(self)@.machines.len() ==> (#[trigger] old(self)@.machines[j]).run_token
                    != m@.run_token,
        ensures
            final(self).wf(),
            final(self)@.host_ram == old(self)@.host_ram,
            final(self)@.machines == old(self)@.machines.push(m@),
    {
        let ghost before = self@.machines;
        let ghost mv = m@;
        self.machines.push(m);
        proof {
            self.lemma_view();
            assert(self@.machines =~= before.push(mv));
            assert(self@.machines.drop_last() =~= before);
        }
    }

    /// A run token drawn at random: sixteen ASCII letters or digits, drawn
    /// anew while a machine or an entry of `drawn` holds it (up to sixteen
    /// draws; a token that still collides is refused by `add_machines`).
    fn draw_token(&self, drawn: &Vec<(String, String)>) -> (r: String)
        ensures
            r@.len() == 16,
            alphanumeric_text(r@),
    {
        let mut token = random_alphanumeric(16);
        let mut attempts: u32 = 1;
        while attempts < 16
            invariant
                token@.len() == 16,
                alphanumeric_text(token@),
            decreases 16 - attempts,
        {
            let mut taken = self.token_in_use(token.as_str());
            let mut k: usize = 0;
            while k < drawn.len()
                invariant
                    k <= drawn@.len(),
                decreases drawn@.len() - k,
            {
                if str_equal(drawn[k].1.as_str(), token.as_str()) {
                    taken = true;
                }
                k = k + 1;
            }
            if !taken {
                return token;
            }
            token = random_alphanumeric(16);
            attempts = attempts + 1;
        }
        token
    }

    /// Adds a machine in `Requested` for each position `k` of `needed` whose
    /// type is configured and whose drawn run token `drawn[k].1` is held by no
    /// machine, existing or added before it; its runner is named
    /// `forrest-<machine_name>-<drawn[k].0>`. See `accepted`.
    #[verifier::rlimit(50)]
    pub fn add_machines(&mut self, needed: &Vec<Triplet>, cfg: &ConfigFile, drawn: &Vec<(String, String)>)
        requires
            old(self).wf(),
            drawn@.len() == needed@.len(),
        ensures
            final(self).wf(),
            final(self)@.host_ram == old(self)@.host_ram,
            final(self)@.machines.len() == old(self)@.machines.len() + accepted(
                old(self)@.machines,
                triplets_view(needed@),
                *cfg,
                drawn_view(drawn@),
            ).len(),
            final(self)@.machines.take(old(self)@.machines.len() as int) == old(self)@.machines,
            forall|q: int|
                0 <= q < accepted(
                    old(self)@.machines,
                    triplets_view(needed@),
                    *cfg,
                    drawn_view(drawn@),
                ).len() ==> {
                    let k = accepted(
                        old(self)@.machines,
                        triplets_view(needed@),
                        *cfg,
                        drawn_view(drawn@),
                    )[q];
                    new_machine(
                        #[trigger] final(self)@.machines[old(self)@.machines.len() + q],
                        triplets_view(needed@)[k],
                        drawn_view(drawn@)[k],
                        *cfg,
                    )
                },
    {
        let ghost s0 = self@.machines;
        let ghost nv = triplets_view(needed@);
        let ghost dv = drawn_view(drawn@);
        let n0 = self.machines.len();
        let mut k: usize = 0;
        proof {
            self.lemma_view();
        }
        assert(s0.take(n0 as int) =~= s0);
        assert(nv.take(0) =~= Seq::<TripletView>::empty());
        while k < needed.len()
            invariant
                self.wf(),
                self@.host_ram == old(self)@.host_ram,
                s0 == old(self)@.machines,
                nv == triplets_view(needed@),
                dv == drawn_view(drawn@),
                drawn@.len() == needed@.len(),
                n0 == s0.len(),
                k <= needed@.len(),
                self@.machines.len() == n0 + accepted(s0, nv.take(k as int), *cfg, dv).len(),
                self@.machines.take(n0 as int) == s0,
                forall|q: int|
                    0 <= q < accepted(s0, nv.take(k as int), *cfg, dv).len() ==> new_machine(
                        #[trigger] self@.machines[n0 + q],
                        nv[accepted(s0, nv.take(k as int), *cfg, dv)[q]],
                        dv[accepted(s0, nv.take(k as int), *cfg, dv)[q]],
                        *cfg,
                    ),
            decreases needed@.len() - k,
        {
            let ghost before = self@.machines;
            let ghost prev = accepted(s0, nv.take(k as int), *cfg, dv);
            proof {
                lemma_accepted_facts(s0, nv.take(k as int), *cfg, dv);
                assert(nv.take(k + 1).drop_last() =~= nv.take(k as int));
                assert(nv.take(k + 1)[k as int] == nv[k as int]);
                assert forall|q: int| 0 <= q < prev.len() implies nv.take(k as int)[prev[q]] == nv[prev[q]] by {}
            }
            let t = &needed[k];
            let token = &drawn[k].1;
            let used = self.token_in_use(token.as_str());
            proof {
                reveal(acceptable);
                assert(dv[k as int] == (drawn@[k as int].0@, drawn@[k as int].1@));
                if !used {
                    assert forall|j: int| 0 <= j < s0.len() implies (#[trigger] s0[j]).run_token
                        != dv[k as int].1 by {
                        assert(before[j] == before.take(n0 as int)[j]);
                    }
                    assert forall|q: int| 0 <= q < prev.len() implies dv[#[trigger] prev[q]].1
                        != dv[k as int].1 by {
                        assert(before[n0 + q].run_token == dv[prev[q]].1);
                    }
                } else {
                    let j = choose|j: int| 0 <= j < before.len() && (#[trigger] before[j]).run_token == token@;
                    if j < n0 {
                        assert(before[j] == before.take(n0 as int)[j]);
                        assert(!token_free(s0, dv[k as int].1));
                    } else {
                        let q = j - n0;
                        assert(new_machine(before[n0 + q], nv[prev[q]], dv[prev[q]], *cfg));
                        assert(dv[prev[q]].1 == dv[k as int].1);
                    }
                }
            }
            match cfg.machine_config(t) {
                Some(mc) => {
                    if !used {
                        let m = Machine::new(t.duplicate(), mc.snapshot(), drawn[k].0.as_str(), token.clone());
                        let ghost mv = m@;
                        self.add_machine(m);
                        proof {
                            let acc = accepted(s0, nv.take(k + 1), *cfg, dv);
                            assert(acc == prev.push(k as int));
                            assert(self@.machines =~= before.push(mv));
                            assert(self@.machines.take(n0 as int) =~= before.take(n0 as int));
                            assert forall|q: int| 0 <= q < acc.len() implies new_machine(
                                #[trigger] self@.machines[n0 + q],
                                nv[acc[q]],
                                dv[acc[q]],
                                *cfg,
                            ) by {
                                if q < prev.len() {
                                    assert(self@.machines[n0 + q] == before[n0 + q]);
                                    assert(acc[q] == prev[q]);
                                } else {
                                    assert(acc[q] == k);
                                    assert(self@.machines[n0 + q] == mv);
                                }
                            }
                        }
                    } else {
                        assert(accepted(s0, nv.take(k + 1), *cfg, dv) == prev);
                    }
                },
                None => {
                    assert(accepted(s0, nv.take(k + 1), *cfg, dv) == prev);
                },
            }
            k = k + 1;
        }
        assert(nv.take(k as int) =~= nv);
    }

    /// Brings the fleet in line with the demand: kills the surplus machines
    /// (see `reduce_supply`), then draws a runner name suffix and a run token
    /// for each machine that the demand falls short of and adds the machines
    /// (see `add_machines`). Afterwards no type that is not requested has an
    /// available machine; on an empty fleet a single configured request gets
    /// its machine.
    #[verifier::rlimit(60)]
    pub fn update_demand(&mut self, requested: &Vec<Triplet>, cfg: &ConfigFile) -> (r: Vec<Killed>)
        requires
            old(self).wf(),
        ensures
            forall|k: int|
                0 <= k < r@.len() ==> reports_surplus(
                    old(self)@.machines,
                    triplets_view(requested@),
                    #[trigger] r@[k],
                ),
            forall|i: int|
                0 <= i < old(self)@.machines.len() && surplus(
                    old(self)@.machines,
                    triplets_view(requested@),
                    i,
                ) ==> reported(r@, #[trigger] old(self)@.machines[i]),
            final(self).wf(),
            final(self)@.host_ram == old(self)@.host_ram,
            final(self)@.machines.len() >= old(self)@.machines.len(),
            final(self)@.machines.take(old(self)@.machines.len() as int) == reduced(
                old(self)@.machines,
                triplets_view(requested@),
            ),
            forall|i: int|
                old(self)@.machines.len() <= i < final(self)@.machines.len() ==> fresh_machine(
                    #[trigger] final(self)@.machines[i],
                    *cfg,
                ),
            forall|t: TripletView|
                #[trigger] count_of(
                    triplets_of(final(self)@.machines.skip(old(self)@.machines.len() as int)),
                    t,
                ) <= shortfall(
                    reduced(old(self)@.machines, triplets_view(requested@)),
                    triplets_view(requested@),
                    t,
                ),
            forall|i: int|
                0 <= i < final(self)@.machines.len() && count_of(
                    triplets_view(requested@),
                    (#[trigger] final(self)@.machines[i]).triplet,
                ) == 0 ==> !final(self)@.machines[i].status.available(),
            old(self)@.machines.len() == 0 && requested@.len() == 1 && cfg.machine_config_spec(
                requested@[0]@,
            ).is_some() ==> final(self)@.machines.len() == 1 && final(self)@.machines[0].triplet
                == requested@[0]@,
    {
        let ghost s0 = self@.machines;
        let ghost rv = triplets_view(requested@);
        let killed = self.reduce_supply(requested);
        let ghost s1 = self@.machines;
        assert(s1 =~= reduced(s0, rv));
        let needed = self.machines_needed(requested);
        let ghost nv = triplets_view(needed@);
        let mut drawn: Vec<(String, String)> = Vec::new();
        let mut k: usize = 0;
        while k < needed.len()
            invariant
                k <= needed@.len(),
                drawn@.len() == k,
                forall|q: int|
                    0 <= q < k ==> (#[trigger] drawn@[q]).0@.len() == 16 && alphanumeric_text(
                        drawn@[q].0@,
                    ) && drawn@[q].1@.len() == 16 && alphanumeric_text(drawn@[q].1@),
            decreases needed@.len() - k,
        {
            let suffix = random_alphanumeric(16);
            let token = self.draw_token(&drawn);
            drawn.push((suffix, token));
            k = k + 1;
        }
        let ghost dv = drawn_view(drawn@);
        let ghost n0 = s1.len() as int;
        assert forall|q: int| 0 <= q < dv.len() implies (#[trigger] dv[q]).0.len() == 16 && alphanumeric_text(dv[q].0)
            && dv[q].1.len() == 16 && alphanumeric_text(dv[q].1) by {
            assert(dv[q] == (drawn@[q].0@, drawn@[q].1@));
        }
        self.add_machines(&needed, cfg, &drawn);
        proof {
            let f = self@.machines;
            lemma_added_machines_fresh(f, n0, s1, nv, *cfg, dv);
            lemma_accepted_facts(s1, nv, *cfg, dv);
            assert forall|t: TripletView|
                #[trigger] count_of(triplets_of(f.skip(s0.len() as int)), t) <= shortfall(
                    reduced(s0, rv),
                    rv,
                    t,
                ) by {
                assert(count_of(accepted_types(s1, nv, *cfg, dv), t) <= count_of(nv, t));
            }
            lemma_unrequested_unavailable(s0, rv, f);
            if s0.len() == 0 && requested@.len() == 1 && cfg.machine_config_spec(requested@[0]@).is_some() {
                lemma_single_request(s0, rv, s1, nv, *cfg, dv, f);
            }
        }
        killed
    }

    /// Whether some live machine is of type `t`.
    pub fn has_machine_of(&self, t: &Triplet) -> (r: bool)
        ensures
            r == exists|j: int|
                0 <= j < self@.machines.len() && (#[trigger] self@.machines[j]).triplet == t@
                    && self@.machines[j].status != Status::Stopped,
    {
        let mut i: usize = 0;
        while i < self.machines.len()
            invariant
                i <= self@.machines.len(),
                forall|j: int|
                    0 <= j < i ==> !((#[trigger] self@.machines[j]).triplet == t@
                        && self@.machines[j].status != Status::Stopped),
            decreases self.machines.len() - i,
        {
            proof {
                self.lemma_view();
            }
            if self.machines[i].triplet().same(t) && !self.machines[i].status().is_stopped() {
                assert(self@.machines[i as int].triplet == t@);
                return true;
            }
            i = i + 1;
        }
        proof {
            self.lemma_view();
        }
        false
    }

    /// The order of a scheduling pass: every machine once, those needing the
    /// most RAM first, ties in fleet order.
    pub fn reschedule_order(&self) -> (r: Vec<usize>)
        ensures
            r@.len() == self@.machines.len(),
            r@.no_duplicates(),
            forall|k: int| 0 <= k < r@.len() ==> #[trigger] r@[k] < self@.machines.len(),
            forall|a: int, b: int|
                0 <= a < b < r@.len() ==> self@.machines[#[trigger] r@[a] as int].ram_required
                    >= self@.machines[#[trigger] r@[b] as int].ram_required,
    {
        let ghost s = self@.machines;
        let n = self.machines.len();
        let mut r: Vec<usize> = Vec::new();
        let mut i: usize = 0;
        while i < n
            invariant
                s == self@.machines,
                n == s.len(),
                i <= n,
                r@.len() == i,
                r@.no_duplicates(),
                forall|k: int| 0 <= k < r@.len() ==> #[trigger] r@[k] < i,
                forall|a: int, b: int|
                    0 <= a < b < r@.len() ==> s[#[trigger] r@[a] as int].ram_required >= s[#[trigger] r@[b] as int].ram_required,
            decreases n - i,
        {
            proof {
                self.lemma_view();
            }
            let ram = self.machines[i].ram_required();
            let mut p: usize = 0;
            while p < r.len() && self.machines[r[p]].ram_required() >= ram
                invariant
                    s == self@.machines,
                    n == s.len(),
                    i < n,
                    ram == s[i as int].ram_required,
                    p <= r@.len(),
                    forall|k: int| 0 <= k < r@.len() ==> #[trigger] r@[k] < i,
                    forall|k: int| 0 <= k < p ==> s[#[trigger] r@[k] as int].ram_required >= ram,
                decreases r@.len() - p,
            {
                proof {
                    self.lemma_view();
                }
                p = p + 1;
            }
            let ghost old_r = r@;
            r.insert(p, i);
            proof {
                assert(r@ =~= old_r.insert(p as int, i));
                assert forall|k: int| 0 <= k < r@.len() implies #[trigger] r@[k] < i + 1 by {
                    if k < p {
                        assert(r@[k] == old_r[k]);
                    } else if k > p {
                        assert(r@[k] == old_r[k - 1]);
                    }
                }
                assert forall|a: int, b: int| 0 <= a < b < r@.len() && r@[a] == r@[b] implies false by {
                    if a != p && b != p {
                        let a2 = if a < p { a } else { a - 1 };
                        let b2 = if b < p { b } else { b - 1 };
                        assert(old_r[a2] == r@[a]);
                        assert(old_r[b2] == r@[b]);
                    } else if a == p {
                        let b2 = b - 1;
                        assert(old_r[b2] == r@[b]);
                    } else {
                        assert(old_r[a] == r@[a]);
                    }
                }
                assert forall|a: int, b: int|
                    0 <= a < b < r@.len() implies s[#[trigger] r@[a] as int].ram_required
                    >= s[#[trigger] r@[b] as int].ram_required by {
                    if p < old_r.len() {
                        self.lemma_view();
                    }
                    if a < p && b < p {
                        assert(r@[a] == old_r[a] && r@[b] == old_r[b]);
                    } else if a < p && b == p {
                        assert(r@[a] == old_r[a]);
                    } else if a < p && b > p {
                        assert(r@[a] == old_r[a] && r@[b] == old_r[b - 1]);
                    } else if a == p {
                        assert(r@[b] == old_r[b - 1]);
                        if p < old_r.len() {
                            assert(s[old_r[p as int] as int].ram_required < ram);
                            if b - 1 > p {
                                assert(s[old_r[p as int] as int].ram_required >= s[old_r[b - 1] as int].ram_required);
                            }
                        }
                    } else {
                        assert(r@[a] == old_r[a - 1] && r@[b] == old_r[b - 1]);
                    }
                }
            }
            i = i + 1;
        }
        r
    }

    /// One step of a scheduling pass for machine `i`: a requested machine
    /// begins its registration; a registered one is to be started if it fits
    /// in the free RAM.
    pub fn reschedule_step(&mut self, i: usize) -> (r: Reschedule)
        requires
            old(self).wf(),
            i < old(self)@.machines.len(),
        ensures
            final(self).wf(),
            final(self)@.host_ram == old(self)@.host_ram,
            old(self)@.machines[i as int].status == Status::Requested ==> r == Reschedule::Register
                && final(self)@.machines == old(self)@.machines.update(
                i as int,
                old(self)@.machines[i as int].with_status(Status::Registering),
            ),
            old(self)@.machines[i as int].status != Status::Requested ==> final(self)@.machines
                == old(self)@.machines,
            old(self)@.machines[i as int].status == Status::Registered ==> r == if old(
                self,
            )@.machines[i as int].ram_required + total_consumed(old(self)@.machines) <= old(
                self,
            )@.host_ram {
                Reschedule::Prepare
            } else {
                Reschedule::Postpone
            },
            old(self)@.machines[i as int].status != Status::Requested && old(self)@.machines[i as int].status
                != Status::Registered ==> r == Reschedule::Nothing,
    {
        proof {
            self.lemma_view();
        }
        match self.machines[i].status() {
            Status::Requested => {
                let ghost before = self@.machines;
                self.machines[i].begin_registration();
                proof {
                    self.lemma_view();
                    assert(self@.machines =~= before.update(i as int, self.machines@[i as int]@));
                    lemma_fleet_update(before, self.host_ram, i as int, self.machines@[i as int]@);
                }
                Reschedule::Register
            },
            Status::Registered => {
                if self.machines[i].ram_required() <= self.ram_available() {
                    Reschedule::Prepare
                } else {
                    Reschedule::Postpone
                }
            },
            _ => Reschedule::Nothing,
        }
    }

    /// Starts registered machine `i` from `run_dir` at time `now`, where it
    /// fits in the free RAM. Returns whether it was started.
    pub fn start_machine(&mut self, i: usize, run_dir: String, now: u64) -> (r: bool)
        requires
            old(self).wf(),
            i < old(self)@.machines.len(),
        ensures
            final(self).wf(),
            final(self)@.host_ram == old(self)@.host_ram,
            r == (old(self)@.machines[i as int].status == Status::Registered && old(
                self,
            )@.machines[i as int].ram_required + total_consumed(old(self)@.machines) <= old(
                self,
            )@.host_ram),
            !r ==> final(self)@.machines == old(self)@.machines,
            r ==> final(self)@.machines == old(self)@.machines.update(
                i as int,
                MachineView {
                    status: Status::Starting,
                    run_dir: Some(run_dir@),
                    started: Some(now),
                    ..old(self)@.machines[i as int]
                },
            ),
    {
        proof {
            self.lemma_view();
        }
        if self.machines[i].status() != Status::Registered {
            return false;
        }
        if self.machines[i].ram_required() > self.ram_available() {
            return false;
        }
        let ghost before = self@.machines;
        self.machines[i].start(run_dir, now);
        proof {
            self.lemma_view();
            assert(self@.machines =~= before.update(i as int, self.machines@[i as int]@));
            lemma_fleet_update(before, self.host_ram, i as int, self.machines@[i as int]@);
        }
        true
    }

    /// Kills every machine that has been starting for longer than `timeout`
    /// seconds at time `now`: it failed to boot.
    pub fn expire_starting(&mut self, now: u64, timeout: u64) -> (r: Vec<Killed>)
        requires
            old(self).wf(),
        ensures
            final(self).wf(),
            final(self)@.host_ram == old(self)@.host_ram,
            final(self)@.machines.len() == old(self)@.machines.len(),
            forall|i: int|
                0 <= i < old(self)@.machines.len() ==> #[trigger] final(self)@.machines[i] == if boot_timed_out(
                    old(self)@.machines[i],
                    now,
                    timeout,
                ) {
                    old(self)@.machines[i].with_status(Status::Stopped)
                } else {
                    old(self)@.machines[i]
                },
            forall|k: int|
                0 <= k < r@.len() ==> reports_timed_out(old(self)@.machines, #[trigger] r@[k], now, timeout),
            forall|i: int|
                0 <= i < old(self)@.machines.len() && boot_timed_out(old(self)@.machines[i], now, timeout)
                    ==> reported(r@, #[trigger] old(self)@.machines[i]),
    {
        let ghost s = self@.machines;
        let n = self.machines.len();
        let mut killed: Vec<Killed> = Vec::new();
        let mut k: usize = 0;
        while k < n
            invariant
                self.wf(),
                self@.host_ram == old(self)@.host_ram,
                s == old(self)@.machines,
                n == s.len(),
                self@.machines.len() == n,
                k <= n,
                forall|j: int|
                    0 <= j < k ==> #[trigger] self@.machines[j] == if boot_timed_out(s[j], now, timeout) {
                        s[j].with_status(Status::Stopped)
                    } else {
                        s[j]
                    },
                forall|j: int| k <= j < n ==> #[trigger] self@.machines[j] == s[j],
                forall|q: int|
                    0 <= q < killed@.len() ==> reports_timed_out(s, #[trigger] killed@[q], now, timeout),
                forall|i: int| 0 <= i < k && boot_timed_out(s[i], now, timeout) ==> reported(killed@, #[trigger] s[i]),
            decreases n - k,
        {
            proof {
                self.lemma_view();
                assert(self@.machines[k as int] == self.machines@[k as int]@);
                assert(self@.machines[k as int].wf());
            }
            let expired = match self.machines[k].starting_duration(now) {
                Some(d) => d > timeout,
                None => false,
            };
            let ghost before_killed = killed@;
            if expired {
                assert(s[k as int].status == Status::Starting);
                match self.kill_machine(k) {
                    Some(x) => {
                        killed.push(x);
                        proof {
                            let last = killed@.len() - 1;
                            assert(reports(killed@[last], s[k as int]));
                            assert forall|q: int|
                                0 <= q < killed@.len() implies reports_timed_out(s, #[trigger] killed@[q], now, timeout) by {
                                if q < before_killed.len() {
                                    assert(killed@[q] == before_killed[q]);
                                } else {
                                    assert(boot_timed_out(s[k as int], now, timeout));
                                }
                            }
                            assert forall|i: int|
                                0 <= i < k + 1 && boot_timed_out(s[i], now, timeout) implies reported(killed@, #[trigger] s[i]) by {
                                if i < k {
                                    assert(reported(before_killed, s[i]));
                                    let q = choose|q: int| 0 <= q < before_killed.len() && reports(#[trigger] before_killed[q], s[i]);
                                    assert(killed@[q] == before_killed[q]);
                                } else {
                                    assert(reports(killed@[last], s[i]));
                                }
                            }
                        }
                    },
                    None => {},
                }
            }
            k = k + 1;
        }
        killed
    }

    /// The janitor's view of one runner that the platform lists for
    /// repository `oar`: runners named `forrest-...` whose labels name a
    /// machine type and whose status is `online` or `offline` are matched
    /// against the live machines and receive the feedback; the others are
    /// ignored. An unmatched runner that is offline and idle is an orphan.
    pub fn reconcile_runner(
        &mut self,
        oar: &OwnerAndRepo,
        runner_name: &str,
        labels: &Vec<String>,
        status: &str,
        busy: bool,
    ) -> (r: RunnerVerdict)
        requires
            old(self).wf(),
        ensures
            final(self).wf(),
            final(self)@.host_ram == old(self)@.host_ram,
            ({
                let machine = labelled_machine(strings_view(labels@));
                let online = status@ == "online"@;
                let ours = "forrest-"@.is_prefix_of(runner_name@) && machine.is_some() && (online
                    || status@ == "offline"@);
                let t = (oar@.0, oar@.1, machine.unwrap());
                let found = first_live_runner(old(self)@.machines, t, runner_name@).is_some();
                &&& !ours ==> r == RunnerVerdict::Ignored && final(self)@.machines == old(
                    self,
                )@.machines
                &&& ours && found ==> r == RunnerVerdict::Known && final(self)@.machines
                    == fleet_feedback(old(self)@.machines, t, runner_name@, Some(online), busy)
                &&& ours && !found ==> final(self)@.machines == old(self)@.machines && r == if !online
                    && !busy {
                    RunnerVerdict::Orphan
                } else {
                    RunnerVerdict::Unknown
                }
            }),
    {
        proof {
            reveal_strlit("online");
            reveal_strlit("offline");
        }
        if !starts_with(runner_name, "forrest-") {
            return RunnerVerdict::Ignored;
        }
        let triplet = match oar.duplicate().into_triplet_via_labels(labels) {
            Some(t) => t,
            None => {
                return RunnerVerdict::Ignored;
            },
        };
        let online = if str_equal(status, "online") {
            true
        } else if str_equal(status, "offline") {
            false
        } else {
            return RunnerVerdict::Ignored;
        };
        if self.status_feedback(&triplet, runner_name, Some(online), busy) {
            RunnerVerdict::Known
        } else if !online && !busy {
            RunnerVerdict::Orphan
        } else {
            RunnerVerdict::Unknown
        }
    }

    /// Drops the machines that have stopped.
    pub fn prune(&mut self)
        requires
            old(self).wf(),
        ensures
            final(self).wf(),
            final(self)@.machines == live(old(self)@.machines),
            final(self)@.host_ram == old(self)@.host_ram,
    {
        let ghost s = self@.machines;
        let mut i: usize = 0;
        let mut k: usize = 0;
        assert(s.take(0) =~= Seq::<MachineView>::empty());
        assert(s.skip(0) =~= s);
        let n0 = self.machines.len();
        proof {
            self.lemma_view();
        }
        assert(s.len() == n0);
        while i < self.machines.len()
            invariant
                self.wf(),
                self@.host_ram == old(self)@.host_ram,
                s == old(self)@.machines,
                s.len() <= usize::MAX,
                k <= s.len(),
                i == live(s.take(k as int)).len(),
                self@.machines == live(s.take(k as int)) + s.skip(k as int),
            decreases self.machines.len() - i,
        {
            proof {
                self.lemma_view();
                assert(self@.machines.len() == i + (s.len() - k));
                assert(s.take(k + 1).drop_last() =~= s.take(k as int));
                assert(s.skip(k as int)[0] == s[k as int]);
                assert(self@.machines[i as int] == s[k as int]);
            }
            if self.machines[i].status().is_stopped() {
                let ghost before = self@.machines;
                self.machines.remove(i);
                proof {
                    self.lemma_view();
                    assert(self@.machines =~= before.remove(i as int));
                    lemma_total_remove(before, i as int);
                    assert forall|a: int, b: int|
                        0 <= a < self@.machines.len() && 0 <= b < self@.machines.len() && a != b
                            implies (#[trigger] self@.machines[a]).run_token
                            != (#[trigger] self@.machines[b]).run_token by {
                        let a2 = if a < i { a } else { a + 1 };
                        let b2 = if b < i { b } else { b + 1 };
                        assert(self@.machines[a] == before[a2]);
                        assert(self@.machines[b] == before[b2]);
                    }
                    assert(self@.machines =~= live(s.take(k + 1)) + s.skip(k + 1));
                }
            } else {
                proof {
                    assert(live(s.take(k + 1)) == live(s.take(k as int)).push(s[k as int]));
                    assert(self@.machines =~= live(s.take(k + 1)) + s.skip(k + 1));
                }
                i = i + 1;
            }
            k = k + 1;
        }
        proof {
            self.lemma_view();
            assert(s.take(k as int) =~= s);
            assert(s.skip(k as int) =~= Seq::<MachineView>::empty());
            assert(self@.machines =~= live(s));
        }
    }
}

} // verus!
