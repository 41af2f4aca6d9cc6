//! Where the volume and the scripts of a container lie, and what its entry point does.

use vstd::prelude::*;
use crate::text::{concat2, concat3, join, joined};

verus! {

/// Which container a job is about, and where the volumes are.
#[derive(Clone, Debug, PartialEq, Eq)]
pub struct ContainerPlace {
    pub uuid: String,
    pub volumes_path: String,
}

/// The texts of a container's place.
pub struct ContainerPlaceTexts {
    pub uuid: Seq<char>,
    pub volumes_path: Seq<char>,
}

impl DeepView for ContainerPlace {
    type V = ContainerPlaceTexts;

    open spec fn deep_view(&self) -> ContainerPlaceTexts {
        ContainerPlaceTexts { uuid: self.uuid@, volumes_path: self.volumes_path@ }
    }
}

impl ContainerPlaceTexts {
    /// The directory of the container's volume.
    pub open spec fn volume_dir(self) -> Seq<char> {
        self.volumes_path + "/"@ + self.uuid
    }

    /// The directory of the scripts that the container runs.
    pub open spec fn data_dir(self) -> Seq<char> {
        self.volumes_path + "/"@ + self.uuid + "_data"@
    }

    /// The path of the install script.
    pub open spec fn script_path(self) -> Seq<char> {
        self.data_dir() + "/install.sh"@
    }

    /// The path of the entry point.
    pub open spec fn entrypoint_path(self) -> Seq<char> {
        self.data_dir() + "/entrypoint.sh"@
    }
}

impl ContainerPlace {
    /// A copy of the place.
    pub fn copy(&self) -> (r: ContainerPlace)
        ensures
            r.deep_view() == self.deep_view(),
    {
        ContainerPlace { uuid: self.uuid.clone(), volumes_path: self.volumes_path.clone() }
    }

    /// The directory of the container's volume.
    pub fn volume_dir(&self) -> (r: String)
        ensures
            r@ == self.deep_view().volume_dir(),
    {
        concat3(self.volumes_path.as_str(), "/", self.uuid.as_str())
    }

    /// The directory of the scripts that the container runs.
    pub fn data_dir(&self) -> (r: String)
        ensures
            r@ == self.deep_view().data_dir(),
    {
        let volume = self.volume_dir();
        concat2(volume.as_str(), "_data")
    }

    /// The path of the install script.
    pub fn script_path(&self) -> (r: String)
        ensures
            r@ == self.deep_view().script_path(),
    {
        let dir = self.data_dir();
        concat2(dir.as_str(), "/install.sh")
    }

    /// The path of the entry point.
    pub fn entrypoint_path(&self) -> (r: String)
        ensures
            r@ == self.deep_view().entrypoint_path(),
    {
        let dir = self.data_dir();
        concat2(dir.as_str(), "/entrypoint.sh")
    }
}

/// The command under which every container runs its entry point.
pub open spec fn entrypoint_command() -> Seq<Seq<char>> {
    seq!["/bin/sh"@, "/data/entrypoint.sh"@]
}

/// What the entry point of a container does: its startup command, or nothing for ever.
pub open spec fn entrypoint_script(command: Option<Seq<Seq<char>>>) -> Seq<char> {
    match command {
        Some(parts) => joined(parts, " "@),
        None => "sleep infinity"@,
    }
}

/// Everything of a container lies beside its volume under the directory of the volumes, in two
/// directories named after its uuid: the volume itself, and the scripts in one whose name goes on
/// with `_data`. The container sees the latter at `/data`, and runs its entry point from there.
pub proof fn law_scripts_lie_beside_volume(place: ContainerPlaceTexts)
    ensures
        place.volume_dir() == place.volumes_path + "/"@ + place.uuid,
        place.data_dir() == place.volume_dir() + "_data"@,
        place.script_path() == place.data_dir() + "/install.sh"@,
        place.entrypoint_path() == place.data_dir() + "/entrypoint.sh"@,
        entrypoint_command() == seq!["/bin/sh"@, "/data"@ + "/entrypoint.sh"@],
{
    reveal_strlit("/data");
    reveal_strlit("/entrypoint.sh");
    reveal_strlit("/data/entrypoint.sh");
    assert("/data"@ + "/entrypoint.sh"@ =~= "/data/entrypoint.sh"@);
}

/// Two containers share neither directory unless they are the same.
pub proof fn law_containers_lie_apart(a: ContainerPlaceTexts, b: ContainerPlaceTexts)
    requires
        a.volumes_path == b.volumes_path,
        a.uuid != b.uuid,
    ensures
        a.volume_dir() != b.volume_dir(),
        a.data_dir() != b.data_dir(),
{
    let front = a.volumes_path + "/"@;
    let n = front.len() as int;
    reveal_strlit("_data");
    if a.volume_dir() == b.volume_dir() {
        assert(a.volume_dir().skip(n) =~= a.uuid);
        assert(b.volume_dir().skip(n) =~= b.uuid);
    }
    if a.data_dir() == b.data_dir() {
        assert(a.uuid.len() == b.uuid.len()) by {
            assert(a.data_dir().len() == n + a.uuid.len() + 5);
            assert(b.data_dir().len() == n + b.uuid.len() + 5);
        }
        assert(a.data_dir().subrange(n, n + a.uuid.len()) =~= a.uuid);
        assert(b.data_dir().subrange(n, n + b.uuid.len()) =~= b.uuid);
    }
}

/// The entry point runs the startup command as it was given, its parts set apart by one space
/// each, and sleeps for ever where there is none.
pub proof fn law_entrypoint_runs_command(front: Seq<Seq<char>>, last: Seq<char>)
    ensures
        entrypoint_script(None) == "sleep infinity"@,
        entrypoint_script(Some(seq![last])) == last,
        front.len() > 0 ==> entrypoint_script(Some(front.push(last))) == entrypoint_script(
            Some(front),
        ) + " "@ + last,
{
    assert(front.push(last).drop_last() =~= front);
}

/// The command under which every container runs its entry point.
pub fn make_entrypoint_command() -> (r: Vec<String>)
    ensures
        r.deep_view() == entrypoint_command(),
{
    let mut r: Vec<String> = Vec::new();
    r.push("/bin/sh".to_owned());
    r.push("/data/entrypoint.sh".to_owned());
    assert(r.deep_view() =~= entrypoint_command());
    r
}

/// Says what the entry point of a container does.
pub fn make_entrypoint_script(command: &Option<Vec<String>>) -> (r: String)
    ensures
        r@ == entrypoint_script(command.deep_view()),
{
    match command {
        Some(parts) => join(parts, " "),
        None => "sleep infinity".to_owned(),
    }
}

} // verus!
