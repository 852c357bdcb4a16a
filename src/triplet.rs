//! The keys that machine types are known by.
use vstd::prelude::*;

use crate::text::{
    join_path, join_with, joined_with, path_join, split_at_chars, split_spec, str_equal, strings_view,
};

verus! {

/// A repository, named by its owner and its name.
#[derive(Clone, Debug, PartialEq, Eq, Hash)]
pub struct OwnerAndRepo {
    owner: String,
    repository: String,
}

/// A machine type: the repository that configures it and the machine's name.
#[derive(Clone, Debug, PartialEq, Eq, Hash)]
pub struct Triplet {
    owner: String,
    repository: String,
    machine_name: String,
}

/// The machine type that a job asks for, as written in its runner labels.
pub type OwnerRepoMachine = Triplet;

/// A repository together with the runner labels of one of its jobs.
#[derive(Clone, Debug, PartialEq, Eq, Hash)]
pub struct OwnerRepoLabels {
    owner: String,
    repository: String,
    labels: Vec<String>,
}

/// Why a job's labels do not name a machine type.
#[derive(Clone, Copy, Debug, PartialEq, Eq, Structural)]
pub enum LabelError {
    UnsupportedLabelCount(usize),
    NotSelfHosted,
    NotForrest,
}

impl View for OwnerAndRepo {
    type V = (Seq<char>, Seq<char>);

    closed spec fn view(&self) -> (Seq<char>, Seq<char>) {
        (self.owner@, self.repository@)
    }
}

impl View for Triplet {
    type V = (Seq<char>, Seq<char>, Seq<char>);

    closed spec fn view(&self) -> (Seq<char>, Seq<char>, Seq<char>) {
        (self.owner@, self.repository@, self.machine_name@)
    }
}

impl View for OwnerRepoLabels {
    type V = (Seq<char>, Seq<char>, Seq<Seq<char>>);

    closed spec fn view(&self) -> (Seq<char>, Seq<char>, Seq<Seq<char>>) {
        (self.owner@, self.repository@, strings_view(self.labels@))
    }
}

/// The labels that a job must carry, in this order, to be served by us.
pub open spec fn is_self_hosted(l: Seq<char>) -> bool {
    l == "self-hosted"@
}

pub open spec fn is_forrest(l: Seq<char>) -> bool {
    l == "forrest"@
}

/// The machine name that a label list selects: three labels, `self-hosted`,
/// `forrest` and the name.
pub open spec fn labelled_machine(labels: Seq<Seq<char>>) -> Option<Seq<char>> {
    if labels.len() == 3 && is_self_hosted(labels[0]) && is_forrest(labels[1]) {
        Some(labels[2])
    } else {
        None
    }
}

/// Why a label list that selects no machine fails to.
pub open spec fn label_error(labels: Seq<Seq<char>>) -> LabelError {
    if labels.len() != 3 {
        LabelError::UnsupportedLabelCount(labels.len() as usize)
    } else if !is_self_hosted(labels[0]) {
        LabelError::NotSelfHosted
    } else {
        LabelError::NotForrest
    }
}

pub open spec fn run_dir_path_spec(t: (Seq<char>, Seq<char>, Seq<char>), base: Seq<char>, runner: Seq<char>) -> Seq<char> {
    path_join(path_join(path_join(path_join(path_join(base, "runs"@), t.0), t.1), t.2), runner)
}

pub open spec fn machine_image_path_spec(t: (Seq<char>, Seq<char>, Seq<char>), base: Seq<char>) -> Seq<char> {
    path_join(path_join(path_join(path_join(base, "machines"@), t.0), t.1), t.2 + ".img"@)
}

pub open spec fn broken_image_path_spec(t: (Seq<char>, Seq<char>, Seq<char>), base: Seq<char>) -> Seq<char> {
    machine_image_path_spec(t, base) + ".broken"@
}

impl OwnerAndRepo {
    pub fn new(owner: &str, repository: &str) -> (r: OwnerAndRepo)
        ensures
            r@ == (owner@, repository@),
    {
        OwnerAndRepo { owner: owner.to_owned(), repository: repository.to_owned() }
    }

    pub fn into_triplet(self, machine_name: &str) -> (r: Triplet)
        ensures
            r@ == (self@.0, self@.1, machine_name@),
    {
        Triplet { owner: self.owner, repository: self.repository, machine_name: machine_name.to_owned() }
    }

    /// The machine type that a job of this repository asks for, if its labels
    /// are `self-hosted`, `forrest` and a machine name; other labels are ignored.
    pub fn into_triplet_via_labels(self, labels: &Vec<String>) -> (r: Option<Triplet>)
        ensures
            r.is_some() == labelled_machine(strings_view(labels@)).is_some(),
            r.is_some() ==> r.unwrap()@ == (
                self@.0,
                self@.1,
                labelled_machine(strings_view(labels@)).unwrap(),
            ),
    {
        proof {
            reveal_strlit("self-hosted");
            reveal_strlit("forrest");
        }
        if labels.len() != 3 {
            return None;
        }
        assert(strings_view(labels@)[0] == labels@[0]@);
        assert(strings_view(labels@)[1] == labels@[1]@);
        assert(strings_view(labels@)[2] == labels@[2]@);
        if !str_equal(labels[0].as_str(), "self-hosted") {
            return None;
        }
        if !str_equal(labels[1].as_str(), "forrest") {
            return None;
        }
        Some(self.into_triplet(labels[2].as_str()))
    }

    pub fn into_orl(self, labels: Vec<String>) -> (r: OwnerRepoLabels)
        ensures
            r@ == (self@.0, self@.1, strings_view(labels@)),
    {
        OwnerRepoLabels { owner: self.owner, repository: self.repository, labels }
    }

    pub fn owner(&self) -> (r: &str)
        ensures
            r@ == self@.0,
    {
        self.owner.as_str()
    }

    pub fn repository(&self) -> (r: &str)
        ensures
            r@ == self@.1,
    {
        self.repository.as_str()
    }

    /// A copy with the same view.
    pub fn duplicate(&self) -> (r: OwnerAndRepo)
        ensures
            r@ == self@,
    {
        OwnerAndRepo { owner: self.owner.clone(), repository: self.repository.clone() }
    }

    /// Whether both name the same repository.
    pub fn same(&self, other: &OwnerAndRepo) -> (r: bool)
        ensures
            r == (self@ == other@),
    {
        self.owner == other.owner && self.repository == other.repository
    }

    /// `owner/repository`.
    pub fn to_string(&self) -> (r: String)
        ensures
            r@ == self@.0 + "/"@ + self@.1,
    {
        let mut r = self.owner.clone();
        r.append("/");
        r.append(self.repository.as_str());
        r
    }
}

impl Triplet {
    pub fn new(owner: &str, repository: &str, machine_name: &str) -> (r: Triplet)
        ensures
            r@ == (owner@, repository@, machine_name@),
    {
        Triplet {
            owner: owner.to_owned(),
            repository: repository.to_owned(),
            machine_name: machine_name.to_owned(),
        }
    }

    /// Reads the `owner/repository/machine_name` form: exactly three parts
    /// separated by `/`.
    pub fn parse(s: &str) -> (r: Option<Triplet>)
        ensures
            r.is_some() == (split_spec(s@, seq!['/']).len() == 3),
            r.is_some() ==> r.unwrap()@ == (
                split_spec(s@, seq!['/'])[0],
                split_spec(s@, seq!['/'])[1],
                split_spec(s@, seq!['/'])[2],
            ),
    {
        let seps = vec!['/'];
        assert(seps@ =~= seq!['/']);
        let parts = split_at_chars(s, &seps);
        if parts.len() != 3 {
            return None;
        }
        assert(strings_view(parts@)[0] == parts@[0]@);
        assert(strings_view(parts@)[1] == parts@[1]@);
        assert(strings_view(parts@)[2] == parts@[2]@);
        Some(Triplet::new(parts[0].as_str(), parts[1].as_str(), parts[2].as_str()))
    }

    pub fn owner(&self) -> (r: &str)
        ensures
            r@ == self@.0,
    {
        self.owner.as_str()
    }

    pub fn repository(&self) -> (r: &str)
        ensures
            r@ == self@.1,
    {
        self.repository.as_str()
    }

    pub fn machine_name(&self) -> (r: &str)
        ensures
            r@ == self@.2,
    {
        self.machine_name.as_str()
    }

    /// The repository part.
    pub fn owner_and_repo(&self) -> (r: OwnerAndRepo)
        ensures
            r@ == (self@.0, self@.1),
    {
        OwnerAndRepo::new(self.owner.as_str(), self.repository.as_str())
    }

    /// The labels a runner for this machine type registers with:
    /// `self-hosted`, `forrest` and the machine name.
    pub fn runner_labels(&self) -> (r: Vec<String>)
        ensures
            labelled_machine(strings_view(r@)) == Some(self@.2),
            strings_view(r@) == seq!["self-hosted"@, "forrest"@, self@.2],
    {
        let r = vec!["self-hosted".to_owned(), "forrest".to_owned(), self.machine_name.clone()];
        assert(strings_view(r@) =~= seq!["self-hosted"@, "forrest"@, self@.2]);
        r
    }

    /// A copy with the same view.
    pub fn duplicate(&self) -> (r: Triplet)
        ensures
            r@ == self@,
    {
        Triplet {
            owner: self.owner.clone(),
            repository: self.repository.clone(),
            machine_name: self.machine_name.clone(),
        }
    }

    /// Whether both name the same machine type.
    pub fn same(&self, other: &Triplet) -> (r: bool)
        ensures
            r == (self@ == other@),
    {
        self.owner == other.owner && self.repository == other.repository && self.machine_name
            == other.machine_name
    }

    /// `base/runs/<owner>/<repository>/<machine_name>/<runner_name>`.
    pub fn run_dir_path(&self, base_dir: &str, runner_name: &str) -> (r: String)
        ensures
            r@ == run_dir_path_spec(self@, base_dir@, runner_name@),
    {
        let p = join_path(base_dir, "runs");
        let p = join_path(p.as_str(), self.owner.as_str());
        let p = join_path(p.as_str(), self.repository.as_str());
        let p = join_path(p.as_str(), self.machine_name.as_str());
        join_path(p.as_str(), runner_name)
    }

    /// `base/machines/<owner>/<repository>/<machine_name>.img`.
    pub fn machine_image_path(&self, base_dir: &str) -> (r: String)
        ensures
            r@ == machine_image_path_spec(self@, base_dir@),
    {
        let p = join_path(base_dir, "machines");
        let p = join_path(p.as_str(), self.owner.as_str());
        let p = join_path(p.as_str(), self.repository.as_str());
        let mut file = self.machine_name.clone();
        file.append(".img");
        join_path(p.as_str(), file.as_str())
    }

    /// Where a machine image that failed to boot is kept: its path with
    /// `.broken` appended.
    pub fn broken_image_path(&self, base_dir: &str) -> (r: String)
        ensures
            r@ == broken_image_path_spec(self@, base_dir@),
    {
        let mut p = self.machine_image_path(base_dir);
        p.append(".broken");
        p
    }

    /// `owner/repository/machine_name`.
    pub fn to_string(&self) -> (r: String)
        ensures
            r@ == self@.0 + "/"@ + self@.1 + "/"@ + self@.2,
    {
        let mut r = self.owner.clone();
        r.append("/");
        r.append(self.repository.as_str());
        r.append("/");
        r.append(self.machine_name.as_str());
        r
    }
}

impl OwnerRepoLabels {
    pub fn owner(&self) -> (r: &str)
        ensures
            r@ == self@.0,
    {
        self.owner.as_str()
    }

    pub fn repository(&self) -> (r: &str)
        ensures
            r@ == self@.1,
    {
        self.repository.as_str()
    }

    pub fn labels(&self) -> (r: &Vec<String>)
        ensures
            strings_view(r@) == self@.2,
    {
        &self.labels
    }

    /// The machine name that the labels select, or why they select none.
    pub fn machine_name(&self) -> (r: Result<String, LabelError>)
        ensures
            r.is_ok() == labelled_machine(self@.2).is_some(),
            r.is_ok() ==> r.unwrap()@ == labelled_machine(self@.2).unwrap(),
            r.is_err() ==> r == Err::<String, LabelError>(label_error(self@.2)),
    {
        proof {
            reveal_strlit("self-hosted");
            reveal_strlit("forrest");
        }
        if self.labels.len() != 3 {
            return Err(LabelError::UnsupportedLabelCount(self.labels.len()));
        }
        assert(self@.2[0] == self.labels@[0]@);
        assert(self@.2[1] == self.labels@[1]@);
        assert(self@.2[2] == self.labels@[2]@);
        if !str_equal(self.labels[0].as_str(), "self-hosted") {
            return Err(LabelError::NotSelfHosted);
        }
        if !str_equal(self.labels[1].as_str(), "forrest") {
            return Err(LabelError::NotForrest);
        }
        Ok(self.labels[2].clone())
    }

    pub fn into_owner_repo_machine(self) -> (r: Result<OwnerRepoMachine, LabelError>)
        ensures
            r.is_ok() == labelled_machine(self@.2).is_some(),
            r.is_ok() ==> r.unwrap()@ == (self@.0, self@.1, labelled_machine(self@.2).unwrap()),
            r.is_err() ==> r == Err::<OwnerRepoMachine, LabelError>(label_error(self@.2)),
    {
        match self.machine_name() {
            Ok(machine_name) => Ok(
                Triplet { owner: self.owner, repository: self.repository, machine_name },
            ),
            Err(e) => Err(e),
        }
    }

    /// `owner repository [label, label, ...]`.
    pub fn to_string(&self) -> (r: String)
        ensures
            r@ == self@.0 + " "@ + self@.1 + " ["@ + joined_with(self@.2, ", "@) + "]"@,
    {
        let mut r = self.owner.clone();
        r.append(" ");
        r.append(self.repository.as_str());
        r.append(" [");
        let labels = join_with(&self.labels, ", ");
        r.append(labels.as_str());
        r.append("]");
        r
    }

    pub fn into_owner_and_repo(self) -> (r: OwnerAndRepo)
        ensures
            r@ == (self@.0, self@.1),
    {
        OwnerAndRepo { owner: self.owner, repository: self.repository }
    }
}

} // verus!
