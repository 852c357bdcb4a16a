//! Artifact uploads from the guests: who may upload where.
use vstd::prelude::*;

use crate::machine::{artifact_matches, artifact_url_spec, runner_name_pattern, Artifact, MachineView};
use crate::manager::Manager as MachineManager;
use crate::text::{
    ascii_whitespace, ascii_whitespace_chars, join_path, join_with, joined_with, path_join, replaced,
    str_equal, strings_view, words, words_spec,
};

verus! {

/// The run token and the extra token of an `Authorization` header of the form
/// `Bearer <run token> [<extra token>]`; empty where absent or where the
/// scheme is not `Bearer`.
pub open spec fn bearer_tokens(authorization: Seq<char>) -> (Seq<char>, Seq<char>) {
    let w = words_spec(authorization, ascii_whitespace());
    if w.len() >= 1 && w[0] == "Bearer"@ {
        (
            if w.len() >= 2 {
                w[1]
            } else {
                Seq::empty()
            },
            if w.len() >= 3 {
                w[2]
            } else {
                Seq::empty()
            },
        )
    } else {
        (Seq::empty(), Seq::empty())
    }
}

/// A path segment that would leave its directory.
pub open spec fn is_dot_segment(c: Seq<char>) -> bool {
    c == "."@ || c == ".."@
}

/// The artifact name and the relative path of an upload URL path
/// `/<prefix>/<name>/<segment>/...`, empty segments ignored. `None` where the
/// name is missing, where a segment is `.` or `..`, or where no segment
/// follows the name.
pub open spec fn upload_target(path: Seq<char>) -> Option<(Seq<char>, Seq<Seq<char>>)> {
    let w = words_spec(path, seq!['/']);
    if w.len() < 2 {
        None
    } else if exists|k: int| 2 <= k < w.len() && is_dot_segment(#[trigger] w[k]) {
        None
    } else if w.len() == 2 {
        None
    } else {
        Some((w[1], w.skip(2)))
    }
}

/// `segments` joined by `/`.
pub open spec fn joined(segments: Seq<Seq<char>>) -> Seq<char> {
    joined_with(segments, "/"@)
}

/// The two tokens of an `Authorization` header.
pub fn tokens(authorization: &str) -> (r: (String, String))
    ensures
        (r.0@, r.1@) == bearer_tokens(authorization@),
{
    proof {
        reveal_strlit("Bearer");
    }
    let seps = ascii_whitespace_chars();
    let w = words(authorization, &seps);
    if w.len() >= 1 && str_equal(w[0].as_str(), "Bearer") {
        assert(strings_view(w@)[0] == w@[0]@);
        let run_token = if w.len() >= 2 {
            assert(strings_view(w@)[1] == w@[1]@);
            w[1].clone()
        } else {
            String::new()
        };
        let extra_token = if w.len() >= 3 {
            assert(strings_view(w@)[2] == w@[2]@);
            w[2].clone()
        } else {
            String::new()
        };
        (run_token, extra_token)
    } else {
        proof {
            if w@.len() >= 1 {
                assert(strings_view(w@)[0] == w@[0]@);
            }
        }
        (String::new(), String::new())
    }
}

/// The artifact name and the path segments of an upload URL path.
pub fn path_components(path: &str) -> (r: Option<(String, Vec<String>)>)
    ensures
        r.is_some() == upload_target(path@).is_some(),
        r.is_some() ==> (r.unwrap().0@, strings_view(r.unwrap().1@)) == upload_target(path@).unwrap(),
{
    proof {
        reveal_strlit(".");
        reveal_strlit("..");
    }
    let seps = vec!['/'];
    assert(seps@ =~= seq!['/']);
    let w = words(path, &seps);
    let ghost wv = strings_view(w@);
    assert(wv == words_spec(path@, seq!['/']));
    if w.len() < 2 {
        return None;
    }
    let mut rest: Vec<String> = Vec::new();
    let mut k: usize = 2;
    assert(strings_view(rest@) =~= wv.subrange(2, 2));
    while k < w.len()
        invariant
            wv == strings_view(w@),
            wv == words_spec(path@, seq!['/']),
            2 <= k <= w@.len(),
            strings_view(rest@) == wv.subrange(2, k as int),
            forall|j: int| 2 <= j < k ==> !is_dot_segment(#[trigger] wv[j]),
        decreases w@.len() - k,
    {
        assert(wv[k as int] == w@[k as int]@);
        if str_equal(w[k].as_str(), ".") || str_equal(w[k].as_str(), "..") {
            assert(is_dot_segment(wv[k as int]));
            return None;
        }
        let ghost prev = rest@;
        rest.push(w[k].clone());
        assert(strings_view(rest@) =~= strings_view(prev).push(wv[k as int]));
        assert(strings_view(rest@) =~= wv.subrange(2, k + 1));
        k = k + 1;
    }
    if rest.len() == 0 {
        return None;
    }
    assert(wv.subrange(2, wv.len() as int) =~= wv.skip(2));
    assert(wv[1] == w@[1]@);
    Some((w[1].clone(), rest))
}

/// `segments` joined by `/`.
pub fn join_segments(segments: &Vec<String>) -> (r: String)
    ensures
        r@ == joined(strings_view(segments@)),
{
    join_with(segments, "/")
}

/// Some live machine of `s` holds run token `token` and has an artifact
/// called `name` whose extra token, if any, is `extra_token`.
pub open spec fn upload_allowed(s: Seq<MachineView>, token: Seq<char>, name: Seq<char>, extra_token: Seq<char>) -> bool {
    exists|j: int|
        0 <= j < s.len() && (#[trigger] s[j]).status != crate::machine::Status::Stopped
            && s[j].run_token == token && exists|i: int|
            0 <= i < s[j].artifacts.len() && artifact_matches(
                #[trigger] s[j].artifacts[i],
                name,
                extra_token,
            )
}

/// An authorised upload: the machine that uploads, the artifact it uploads
/// to, and the path inside the artifact.
pub struct UploadPlan {
    pub machine: usize,
    pub artifact: Artifact,
    pub segments: Vec<String>,
}

impl UploadPlan {
    /// Where the upload is stored: the artifact's directory joined with the
    /// relative path.
    pub fn file_path(&self) -> (r: String)
        ensures
            r@ == path_join(
                replaced(self.artifact.path_template@, runner_name_pattern(), self.artifact.runner_name@),
                joined(strings_view(self.segments@)),
            ),
    {
        let dir = self.artifact.path();
        let rel = join_segments(&self.segments);
        join_path(dir.as_str(), rel.as_str())
    }

    /// The URL under which the upload is served.
    pub fn content_location(&self) -> (r: String)
        ensures
            r@ == artifact_url_spec(self.artifact.url_template@, self.artifact.runner_name@) + joined(
                strings_view(self.segments@),
            ),
    {
        let mut url = self.artifact.url();
        let rel = join_segments(&self.segments);
        url.append(rel.as_str());
        url
    }
}

/// Decides on artifact upload requests.
pub struct ArtifactsHandler {}

impl ArtifactsHandler {
    pub fn new() -> (r: ArtifactsHandler) {
        ArtifactsHandler {  }
    }

    /// Authorises an upload request: `PUT` only (else 405); a valid target
    /// path (else 400); a run token of a live machine (else 404); an artifact
    /// of that machine with this name whose extra token matches (else 404).
    pub fn plan(
        &self,
        machines: &MachineManager,
        is_put: bool,
        authorization: &str,
        path: &str,
    ) -> (r: Result<UploadPlan, u16>)
        requires
            machines.wf(),
        ensures
            !is_put ==> r == Err::<UploadPlan, u16>(405),
            is_put && upload_target(path@).is_none() ==> r == Err::<UploadPlan, u16>(400),
            is_put && upload_target(path@).is_some() ==> match r {
                Ok(plan) => {
                    let (run_token, extra_token) = bearer_tokens(authorization@);
                    let m = machines@.machines[plan.machine as int];
                    &&& plan.machine < machines@.machines.len()
                    &&& m.status != crate::machine::Status::Stopped
                    &&& m.run_token == run_token
                    &&& plan.artifact.quota_index < m.artifacts.len()
                    &&& artifact_matches(
                        m.artifacts[plan.artifact.quota_index as int],
                        upload_target(path@).unwrap().0,
                        extra_token,
                    )
                    &&& strings_view(plan.segments@) == upload_target(path@).unwrap().1
                    &&& plan.artifact.runner_name@ == m.runner_name
                    &&& plan.artifact.path_template@ == m.artifacts[plan.artifact.quota_index as int].path@
                    &&& plan.artifact.url_template@ == m.artifacts[plan.artifact.quota_index as int].url@
                },
                Err(code) => code == 404,
            },
            is_put && upload_target(path@).is_some() ==> (r.is_ok() <==> upload_allowed(
                machines@.machines,
                bearer_tokens(authorization@).0,
                upload_target(path@).unwrap().0,
                bearer_tokens(authorization@).1,
            )),
            is_put && upload_target(path@).is_some() && !(exists|j: int|
                0 <= j < machines@.machines.len() && (#[trigger] machines@.machines[j]).status
                    != crate::machine::Status::Stopped && machines@.machines[j].run_token
                    == bearer_tokens(authorization@).0) ==> r == Err::<UploadPlan, u16>(404),
    {
        if !is_put {
            return Err(405);
        }
        let (run_token, extra_token) = tokens(authorization);
        let (name, segments) = match path_components(path) {
            Some(c) => c,
            None => {
                return Err(400);
            },
        };
        let i = match machines.machine_by_run_token(run_token.as_str()) {
            Some(i) => i,
            None => {
                return Err(404);
            },
        };
        let m = machines.machine(i);
        proof {
            let sv = machines@.machines;
            assert(sv[i as int].wf());
            if upload_allowed(sv, run_token@, name@, extra_token@) {
                let j = choose|j: int|
                    0 <= j < sv.len() && (#[trigger] sv[j]).status != crate::machine::Status::Stopped
                        && sv[j].run_token == run_token@ && exists|a: int|
                        0 <= a < sv[j].artifacts.len() && artifact_matches(
                            #[trigger] sv[j].artifacts[a],
                            name@,
                            extra_token@,
                        );
                if j != i as int {
                    assert(sv[j].run_token != sv[i as int].run_token);
                }
            }
        }
        match m.artifact(name.as_str(), extra_token.as_str()) {
            Some(artifact) => Ok(UploadPlan { machine: i, artifact, segments }),
            None => Err(404),
        }
    }
}

} // verus!
