//! The workspace directory: where each frame file of a record lives, when a
//! file is written, and how the directory is removed.
use vstd::prelude::*;
use crate::codec::SerializedState;
use crate::text::{decimal, push_decimal};
use vstd::string::*;

verus! {

/// `<temp>/<key>.<direction>.<frame>.png`
pub open spec fn frame_file(temp: Seq<char>, key: Seq<char>, dir: nat, frame: nat) -> Seq<char> {
    temp + seq!['/'] + key + seq!['.'] + decimal(dir) + seq!['.'] + decimal(frame) + seq!['.', 'p', 'n', 'g']
}

/// The files of the first `n` frames of direction `dir`.
pub open spec fn direction_files(temp: Seq<char>, key: Seq<char>, dir: nat, n: nat) -> Seq<Seq<char>>
    decreases n,
{
    if n == 0 {
        seq![]
    } else {
        direction_files(temp, key, dir, (n - 1) as nat).push(frame_file(temp, key, dir, (n - 1) as nat))
    }
}

/// The files of the first `dirs` directions, direction-major.
pub open spec fn state_files(temp: Seq<char>, key: Seq<char>, dirs: nat, frame_count: nat) -> Seq<Seq<char>>
    decreases dirs,
{
    if dirs == 0 {
        seq![]
    } else {
        state_files(temp, key, (dirs - 1) as nat, frame_count) + direction_files(
            temp,
            key,
            (dirs - 1) as nat,
            frame_count,
        )
    }
}

/// The path of the file of frame `frame` of direction `dir`.
pub fn frame_file_path(temp: &str, key: &str, dir: u32, frame: u32) -> (r: String)
    ensures
        r@ == frame_file(temp@, key@, dir as nat, frame as nat),
{
    proof {
        reveal_strlit("/");
        reveal_strlit(".");
        reveal_strlit(".png");
    }
    let mut r = String::from_str(temp);
    r.append("/");
    r.append(key);
    r.append(".");
    push_decimal(&mut r, dir);
    r.append(".");
    push_decimal(&mut r, frame);
    r.append(".png");
    assert(r@ =~= frame_file(temp@, key@, dir as nat, frame as nat));
    r
}

impl SerializedState {
    /// The paths of the state's frame files under `temp`, in frame order:
    /// direction-major, then frame.
    pub fn frame_files(&self, temp: &str) -> (r: Vec<String>)
        ensures
            r@.map_values(|p: String| p@) == state_files(
                temp@,
                self.frame_key@,
                self.dirs as nat,
                self.frame_count as nat,
            ),
    {
        let ghost key = self.frame_key@;
        let mut files: Vec<String> = Vec::new();
        let mut d: u32 = 0;
        while d < self.dirs
            invariant
                key == self.frame_key@,
                d <= self.dirs,
                files@.map_values(|p: String| p@) == state_files(temp@, key, d as nat, self.frame_count as nat),
            decreases self.dirs - d,
        {
            let ghost before = files@.map_values(|p: String| p@);
            let mut f: u32 = 0;
            while f < self.frame_count
                invariant
                    key == self.frame_key@,
                    d < self.dirs,
                    f <= self.frame_count,
                    files@.map_values(|p: String| p@) == before + direction_files(temp@, key, d as nat, f as nat),
                decreases self.frame_count - f,
            {
                let ghost mid = files@;
                let path = frame_file_path(temp, self.frame_key.as_str(), d, f);
                files.push(path);
                assert(files@.map_values(|p: String| p@) =~= mid.map_values(|p: String| p@).push(
                    frame_file(temp@, key, d as nat, f as nat),
                ));
                f = f + 1;
                assert(files@.map_values(|p: String| p@) =~= before + direction_files(temp@, key, d as nat, f as nat));
            }
            d = d + 1;
            assert(files@.map_values(|p: String| p@) =~= state_files(temp@, key, d as nat, self.frame_count as nat));
        }
        files
    }
}

/// Whether encoding writes a frame file: always when forced, else only when
/// the file is not there yet.
pub fn must_write(force: bool, present: bool) -> (r: bool)
    ensures
        r == (force || !present),
{
    force || !present
}

/// What removing a workspace directory does.
#[derive(Clone, Copy, Debug, PartialEq, Eq, Structural)]
pub enum Removal {
    /// Leave the directory as it is.
    Keep,
    /// Remove the directory, which is empty.
    RemoveEmpty,
    /// Remove the directory and all it holds.
    RemoveAll,
}

/// The removal to make: nothing where there is no directory; in soft mode,
/// only an empty directory goes; otherwise the whole tree goes. None of them
/// is an error.
pub fn removal(is_dir: bool, soft: bool, empty: bool) -> (r: Removal)
    ensures
        !is_dir ==> r == Removal::Keep,
        is_dir && !soft ==> r == Removal::RemoveAll,
        is_dir && soft && empty ==> r == Removal::RemoveEmpty,
        is_dir && soft && !empty ==> r == Removal::Keep,
{
    if !is_dir {
        Removal::Keep
    } else if !soft {
        Removal::RemoveAll
    } else if empty {
        Removal::RemoveEmpty
    } else {
        Removal::Keep
    }
}

} // verus!
