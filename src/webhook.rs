//! Inbound webhook events: signature checking and what an event changes.
use vstd::prelude::*;

use hmac::Mac;
use vstd::utf8::encode_utf8;

use crate::config::ConfigFile;
use crate::jobs::{JobStatus, Manager as JobManager};
use crate::manager::Manager as MachineManager;
use crate::text::strip_prefix;
use crate::triplet::OwnerAndRepo;

verus! {

/// The value of a hexadecimal digit of either case.
pub open spec fn hex_digit(c: char) -> Option<u8> {
    if '0' <= c && c <= '9' {
        Some((c as u32 - '0' as u32) as u8)
    } else if 'a' <= c && c <= 'f' {
        Some((c as u32 - 'a' as u32 + 10) as u8)
    } else if 'A' <= c && c <= 'F' {
        Some((c as u32 - 'A' as u32 + 10) as u8)
    } else {
        None
    }
}

/// The bytes that `s` spells as pairs of hexadecimal digits, if it does.
pub open spec fn hex_decoded(s: Seq<char>) -> Option<Seq<u8>>
    decreases s.len(),
{
    if s.len() == 0 {
        Some(Seq::empty())
    } else if s.len() == 1 {
        None
    } else {
        match (hex_digit(s[0]), hex_digit(s[1]), hex_decoded(s.skip(2))) {
            (Some(h), Some(l), Some(rest)) => Some(seq![(h * 16 + l) as u8] + rest),
            _ => None,
        }
    }
}

/// The HMAC-SHA256 of `message` under `key`.
pub uninterp spec fn hmac_sha256(key: Seq<u8>, message: Seq<u8>) -> Seq<u8>;

/// Relies on `hex::decode`: pairs of hexadecimal digits of either case become
/// bytes; an odd length or any other character is an error.
#[verifier::external_body]
fn decode_hex(s: &str) -> (r: Option<Vec<u8>>)
    ensures
        r.is_some() == hex_decoded(s@).is_some(),
        r.is_some() ==> r.unwrap()@ == hex_decoded(s@).unwrap(),
{
    hex::decode(s).ok()
}

/// Relies on `hmac::Hmac<sha2::Sha256>`: `new_from_slice` takes a key of any
/// length, and `finalize` gives the MAC of what was passed to `update`.
#[verifier::external_body]
fn compute_hmac_sha256(key: &[u8], message: &[u8]) -> (r: Vec<u8>)
    ensures
        r@ == hmac_sha256(key@, message@),
{
    let mut mac = <hmac::Hmac<sha2::Sha256> as Mac>::new_from_slice(key).unwrap();
    mac.update(message);
    mac.finalize().into_bytes().to_vec()
}

/// Compares two byte strings without stopping at the first difference.
pub fn bytes_equal(a: &Vec<u8>, b: &Vec<u8>) -> (r: bool)
    ensures
        r == (a@ == b@),
{
    let mut same = a.len() == b.len();
    let mut i: usize = 0;
    while i < a.len()
        invariant
            i <= a@.len(),
            same == (a@.len() == b@.len() && forall|j: int| 0 <= j < i ==> a@[j] == b@[j]),
        decreases a@.len() - i,
    {
        let x = a[i];
        let y = if i < b.len() {
            b[i]
        } else {
            x
        };
        same = same && x == y;
        i = i + 1;
    }
    proof {
        if same {
            assert(a@ =~= b@);
        }
    }
    same
}

/// The signature that a `X-Hub-Signature-256` header carries: `sha256=`
/// followed by hexadecimal digits.
pub open spec fn header_signature(header: Seq<char>) -> Option<Seq<u8>> {
    if "sha256="@.is_prefix_of(header) {
        hex_decoded(header.skip(7))
    } else {
        None
    }
}

/// Whether `header` carries exactly the MAC `mac`.
pub fn signature_matches(header: &str, mac: &Vec<u8>) -> (r: bool)
    ensures
        r == (header_signature(header@) == Some(mac@)),
{
    proof {
        reveal_strlit("sha256=");
    }
    match strip_prefix(header, "sha256=") {
        Some(hex) => match decode_hex(hex.as_str()) {
            Some(sig) => bytes_equal(&sig, mac),
            None => false,
        },
        None => false,
    }
}

/// Whether `header` signs `body` under `secret`: the MAC of the body equals
/// the signature in the header.
pub fn check_signature(header: &str, secret: &str, body: &Vec<u8>) -> (r: bool)
    ensures
        r == (header_signature(header@) == Some(hmac_sha256(encode_utf8(secret@), body@))),
{
    let mac = compute_hmac_sha256(secret.as_bytes(), body.as_slice());
    signature_matches(header, &mac)
}

/// A workflow job as a webhook reports it.
pub struct WorkflowJob {
    pub id: u64,
    pub run_id: u64,
    pub status: JobStatus,
    pub labels: Vec<String>,
    pub runner_name: Option<String>,
}

/// The parts of a `workflow_job` event that are acted on; `None` where the
/// event lacks the part (or, for the job, where it could not be read).
pub struct WorkflowJobEvent {
    pub owner: Option<String>,
    pub repository: Option<String>,
    pub installation_id: Option<u64>,
    pub job: Option<WorkflowJob>,
}

/// A webhook body, as read according to its event type.
pub enum WebhookEvent {
    /// The body is not an event of the declared type.
    Unparsable,
    /// An event of a type that is not acted on.
    Other,
    WorkflowJob(WorkflowJobEvent),
}

/// The answer to a webhook, and what the caller must do next.
pub struct WebhookOutcome {
    /// The HTTP status code of the response.
    pub status: u16,
    /// The owner and installation to update credentials for.
    pub installation: Option<(String, u64)>,
    /// A demand update must be scheduled.
    pub schedule_update: bool,
}

/// The status code that a signed event deserves before any state changes.
pub open spec fn event_status(cfg: ConfigFile, event: WebhookEvent) -> u16 {
    match event {
        WebhookEvent::Unparsable => 400,
        WebhookEvent::Other => 204,
        WebhookEvent::WorkflowJob(e) => if e.repository.is_none() || e.owner.is_none() {
            400
        } else if cfg.repository_spec(e.owner.unwrap()@, e.repository.unwrap()@).is_none() {
            401
        } else if e.installation_id.is_none() || e.job.is_none() {
            400
        } else {
            204
        },
    }
}

/// The webhook carries a valid signature of `body` under `secret`.
pub open spec fn signed(secret: Seq<char>, signature: Option<&str>, body: Seq<u8>) -> bool {
    match signature {
        Some(h) => header_signature(h@) == Some(hmac_sha256(encode_utf8(secret), body)),
        None => false,
    }
}

/// Handles a webhook whose `X-Hub-Signature-256` header is `signature`.
/// Without a valid signature under the configured secret the answer is 400 and nothing
/// changes. A signed `workflow_job` event of a configured repository is
/// answered 204, and where its labels name a machine type the job's status
/// goes to `jobs` (see `jobs::Manager::status_feedback`); the other answers
/// follow `event_status`.
pub fn handle_webhook(
    cfg: &ConfigFile,
    jobs: &mut JobManager,
    machines: &mut MachineManager,
    signature: Option<&str>,
    body: &Vec<u8>,
    event: WebhookEvent,
) -> (r: WebhookOutcome)
    requires
        old(jobs).wf(),
        old(machines).wf(),
    ensures
        final(jobs).wf(),
        final(machines).wf(),
        final(machines)@.host_ram == old(machines)@.host_ram,
        !signed(cfg.github.webhook_secret@, signature, body@) ==> r.status == 400 && final(jobs)@ == old(jobs)@
            && final(machines)@ == old(machines)@ && r.installation.is_none() && !r.schedule_update,
        signed(cfg.github.webhook_secret@, signature, body@) ==> r.status == event_status(*cfg, event),
        signed(cfg.github.webhook_secret@, signature, body@) && r.status == 204 ==> match event {
            WebhookEvent::WorkflowJob(e) => {
                let job = e.job.unwrap();
                let oar = (e.owner.unwrap()@, e.repository.unwrap()@);
                let machine = crate::triplet::labelled_machine(crate::text::strings_view(job.labels@));
                let orm = (oar.0, oar.1, machine.unwrap());
                let runner = match job.runner_name {
                    Some(n) => Some(n@),
                    None => None::<Seq<char>>,
                };
                &&& r.installation.is_some()
                &&& r.installation.unwrap().0@ == oar.0
                &&& r.installation.unwrap().1 == e.installation_id.unwrap()
                &&& machine.is_none() ==> final(jobs)@ == old(jobs)@ && final(machines)@ == old(
                    machines,
                )@ && !r.schedule_update
                &&& machine.is_some() ==> final(jobs)@.jobs == crate::jobs::jobs_after(
                    old(jobs)@.jobs,
                    orm,
                    job.id,
                    job.run_id,
                    job.status,
                ).0 && final(machines)@.machines == crate::jobs::fleet_after(
                    old(machines)@.machines,
                    orm,
                    job.status,
                    runner,
                ) && r.schedule_update == (!old(jobs)@.update_pending && crate::jobs::jobs_after(
                    old(jobs)@.jobs,
                    orm,
                    job.id,
                    job.run_id,
                    job.status,
                ).1)
            },
            _ => final(jobs)@ == old(jobs)@ && final(machines)@ == old(machines)@
                && r.installation.is_none() && !r.schedule_update,
        },
        signed(cfg.github.webhook_secret@, signature, body@) && r.status != 204 ==> final(jobs)@ == old(jobs)@
            && final(machines)@ == old(machines)@ && r.installation.is_none() && !r.schedule_update,
{
    let valid = match signature {
        Some(h) => check_signature(h, cfg.github.webhook_secret.as_str(), body),
        None => false,
    };
    if !valid {
        return WebhookOutcome { status: 400, installation: None, schedule_update: false };
    }
    match event {
        WebhookEvent::Unparsable => WebhookOutcome {
            status: 400,
            installation: None,
            schedule_update: false,
        },
        WebhookEvent::Other => WebhookOutcome {
            status: 204,
            installation: None,
            schedule_update: false,
        },
        WebhookEvent::WorkflowJob(e) => {
            let (owner, repository) = match (&e.owner, &e.repository) {
                (Some(o), Some(r)) => (o, r),
                _ => {
                    return WebhookOutcome { status: 400, installation: None, schedule_update: false };
                },
            };
            if cfg.repository(owner.as_str(), repository.as_str()).is_none() {
                return WebhookOutcome { status: 401, installation: None, schedule_update: false };
            }
            let (installation_id, job) = match (e.installation_id, &e.job) {
                (Some(id), Some(job)) => (id, job),
                _ => {
                    return WebhookOutcome { status: 400, installation: None, schedule_update: false };
                },
            };
            let oar = OwnerAndRepo::new(owner.as_str(), repository.as_str());
            let schedule_update = match oar.into_triplet_via_labels(&job.labels) {
                Some(orm) => {
                    let runner = match &job.runner_name {
                        Some(n) => Some(n.as_str()),
                        None => None,
                    };
                    jobs.status_feedback(machines, &orm, job.id, job.run_id, job.status, runner)
                },
                None => false,
            };
            WebhookOutcome {
                status: 204,
                installation: Some((owner.clone(), installation_id)),
                schedule_update,
            }
        },
    }
}

} // verus!
