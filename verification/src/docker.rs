//! The container that runs a note's commands: the image it is made from,
//! the command lines that build, start, use and remove it, and how the
//! outcome of each is read.

use vstd::prelude::*;
use crate::text::{occurs_in, strings_view, text_contains, trim, trimmed};

verus! {

/// The name of the file that describes how the image is built.
pub open spec fn build_file_name() -> Seq<char> {
    "Dockerfile"@
}

/// The build description written where the note's directory has none.
pub open spec fn default_build_file() -> Seq<char> {
    "FROM ubuntu:latest"@
}

/// The directory inside the container at which the note's directory is
/// mounted, and in which commands run.
pub open spec fn mount_point() -> Seq<char> {
    "/home"@
}

/// The line by which the container runtime reports that it has built and
/// tagged the image `name`.
pub open spec fn success_marker(name: Seq<char>) -> Seq<char> {
    "Successfully tagged "@ + name + ":latest"@
}

/// The arguments that build the image `name` from the current directory.
pub open spec fn build_command(name: Seq<char>) -> Seq<Seq<char>> {
    seq!["build"@, "--network=host"@, "."@, "-t"@, name]
}

/// The arguments that start a detached container of the image `image`
/// that stays alive, with the directory `home` mounted at the mount point.
pub open spec fn start_command(image: Seq<char>, home: Seq<char>) -> Seq<Seq<char>> {
    seq!["run"@, "-i"@, "-d"@, "-v"@, home + ":"@ + mount_point(), "--net=host"@, image]
}

/// The arguments that run the shell command `cmd` in the container `id`,
/// in the mounted directory, with the block's code in the variable `CODE`.
pub open spec fn exec_command(id: Seq<char>, cmd: Seq<char>, code: Seq<char>) -> Seq<Seq<char>> {
    seq!["exec"@, "--env"@, "CODE="@ + code, id, "bash"@, "-c"@, "cd home && "@ + cmd]
}

/// The arguments that kill the container `id`.
pub open spec fn kill_command(id: Seq<char>) -> Seq<Seq<char>> {
    seq!["kill"@, id]
}

/// The name of the file that describes how the image is built.
pub fn build_file() -> (name: String)
    ensures
        name@ == build_file_name(),
{
    String::from_str("Dockerfile")
}

/// The build description to write where the note's directory has none.
pub fn default_build_context() -> (content: String)
    ensures
        content@ == default_build_file(),
{
    String::from_str("FROM ubuntu:latest")
}

/// What to write as the build file before a build: nothing where the
/// directory has one, the default description where it has none.
pub fn missing_build_file(present: bool) -> (content: Option<String>)
    ensures
        present ==> content is None,
        !present ==> content is Some && content->0@ == default_build_file(),
{
    if present {
        None
    } else {
        Some(default_build_context())
    }
}

/// An image that has been built.
#[derive(Debug)]
pub struct Image {
    name: String,
}

impl View for Image {
    type V = Seq<char>;

    /// The image's name.
    closed spec fn view(&self) -> Seq<char> {
        self.name@
    }
}

impl Clone for Image {
    fn clone(&self) -> (copy: Image)
        ensures
            copy == *self,
    {
        Image { name: self.name.clone() }
    }
}

impl Image {
    /// The arguments of the container runtime that build the image `name`
    /// from the directory in which the runtime is started.
    pub fn build_args(name: &str) -> (args: Vec<String>)
        ensures
            strings_view(args@) == build_command(name@),
    {
        let mut args: Vec<String> = Vec::new();
        args.push(String::from_str("build"));
        args.push(String::from_str("--network=host"));
        args.push(String::from_str("."));
        args.push(String::from_str("-t"));
        args.push(String::from_str(name));
        assert(strings_view(args@) =~= build_command(name@));
        args
    }

    /// Reads the output of a build of the image `name`. The build has
    /// succeeded exactly where the output holds the runtime's line of
    /// success for that name; how the runtime exited does not count.
    pub fn build(name: &str, build_output: &str) -> (image: Option<Image>)
        ensures
            image is Some <==> occurs_in(success_marker(name@), build_output@),
            image is Some ==> image->0@ == name@,
    {
        let mut marker = String::from_str("Successfully tagged ");
        marker.append(name);
        marker.append(":latest");
        if text_contains(build_output, marker.as_str()) {
            Some(Image { name: String::from_str(name) })
        } else {
            None
        }
    }

    /// The image's name.
    pub fn name(&self) -> (name: String)
        ensures
            name@ == self@,
    {
        self.name.clone()
    }
}

/// A container that has been started.
#[derive(Debug)]
pub struct Container {
    id: String,
    image: Image,
}

/// The mathematical content of a [`Container`].
pub struct ContainerView {
    /// The identifier that the runtime gave the container.
    pub id: Seq<char>,
    /// The name of the image that the container was made from.
    pub image: Seq<char>,
}

impl View for Container {
    type V = ContainerView;

    closed spec fn view(&self) -> ContainerView {
        ContainerView { id: self.id@, image: self.image@ }
    }
}

impl Clone for Container {
    fn clone(&self) -> (copy: Container)
        ensures
            copy == *self,
    {
        Container { id: self.id.clone(), image: self.image.clone() }
    }
}

impl Container {
    /// The arguments of the container runtime that start a container of
    /// `image` in the background, kept alive, with `home_path` mounted.
    pub fn start_args(image: &Image, home_path: &str) -> (args: Vec<String>)
        ensures
            strings_view(args@) == start_command(image@, home_path@),
    {
        let mut volume = String::from_str(home_path);
        volume.append(":");
        volume.append("/home");
        let mut args: Vec<String> = Vec::new();
        args.push(String::from_str("run"));
        args.push(String::from_str("-i"));
        args.push(String::from_str("-d"));
        args.push(String::from_str("-v"));
        args.push(volume);
        args.push(String::from_str("--net=host"));
        args.push(image.name());
        assert(strings_view(args@) =~= start_command(image@, home_path@));
        args
    }

    /// Reads what the runtime printed when asked to start a container of
    /// `image`. Anything on the error stream means that the start has
    /// failed, and no container is recorded. Else the output, without the
    /// whitespace around it, is the container's identifier.
    pub fn start(image: Image, stdout: &str, stderr: &str) -> (container: Option<Container>)
        ensures
            container is Some <==> stderr@.len() == 0,
            container is Some ==> container->0@ == (ContainerView {
                id: trimmed(stdout@),
                image: image@,
            }),
    {
        if stderr.is_empty() {
            Some(Container { id: trim(stdout), image })
        } else {
            None
        }
    }

    /// The identifier that the runtime gave the container.
    pub fn id(&self) -> (id: String)
        ensures
            id@ == self@.id,
    {
        self.id.clone()
    }

    /// The arguments of the container runtime that kill the container.
    pub fn kill(self) -> (args: Vec<String>)
        ensures
            strings_view(args@) == kill_command(self@.id),
    {
        let mut args: Vec<String> = Vec::new();
        args.push(String::from_str("kill"));
        args.push(self.id);
        assert(strings_view(args@) =~= kill_command(self@.id));
        args
    }

    /// The arguments of the container runtime that run the shell command
    /// `cmd` inside the container, in the mounted directory, with `code`
    /// in the environment variable `CODE`.
    pub fn exec(&self, cmd: &str, code: &str) -> (args: Vec<String>)
        ensures
            strings_view(args@) == exec_command(self@.id, cmd@, code@),
    {
        let mut variable = String::from_str("CODE=");
        variable.append(code);
        let mut script = String::from_str("cd home && ");
        script.append(cmd);
        let mut args: Vec<String> = Vec::new();
        args.push(String::from_str("exec"));
        args.push(String::from_str("--env"));
        args.push(variable);
        args.push(self.id.clone());
        args.push(String::from_str("bash"));
        args.push(String::from_str("-c"));
        args.push(script);
        assert(strings_view(args@) =~= exec_command(self@.id, cmd@, code@));
        args
    }
}

} // verus!
