//! The environment overlay that activates a workspace's `.venv` for shell
//! processes. Whether the marker `<root>/.venv/pyvenv.cfg` is a file, and the
//! inherited `PATH`, are read by the caller on every call; this module decides
//! the overlay from them.

use vstd::prelude::*;
use crate::text::{append_chars, chars_of, string_of};

verus! {

/// A pair of the overlay by its views.
pub open spec fn pair_view(p: (String, String)) -> (Seq<char>, Seq<char>) {
    (p.0@, p.1@)
}

/// The overlay: empty without the marker; with it, `VIRTUAL_ENV` set to the
/// venv directory and `PATH` set to its `bin` directory in front of the
/// inherited `PATH`, in that order.
pub open spec fn venv_overlay_spec(
    marker_is_file: bool,
    venv_dir: Seq<char>,
    inherited_path: Seq<char>,
) -> Seq<(Seq<char>, Seq<char>)> {
    if !marker_is_file {
        seq![]
    } else {
        seq![("VIRTUAL_ENV"@, venv_dir), ("PATH"@, venv_dir + "/bin:"@ + inherited_path)]
    }
}

/// The overlay of `venv_dir` (the path of `<root>/.venv`), given whether its
/// `pyvenv.cfg` is a file and the `PATH` of the process.
pub fn venv_overlay_entries(marker_is_file: bool, venv_dir: &str, inherited_path: &str) -> (r: Vec<(String, String)>)
    ensures
        r@.map_values(|p: (String, String)| pair_view(p)) == venv_overlay_spec(marker_is_file, venv_dir@, inherited_path@),
{
    let mut r: Vec<(String, String)> = Vec::new();
    if marker_is_file {
        let mut path = chars_of(venv_dir);
        let bin = chars_of("/bin:");
        append_chars(&mut path, bin.as_slice());
        let rest = chars_of(inherited_path);
        append_chars(&mut path, rest.as_slice());
        r.push(("VIRTUAL_ENV".to_owned(), venv_dir.to_owned()));
        r.push(("PATH".to_owned(), string_of(path.as_slice())));
        proof {
            reveal_strlit("/bin:");
        }
    }
    assert(r@.map_values(|p: (String, String)| pair_view(p)) =~= venv_overlay_spec(marker_is_file, venv_dir@, inherited_path@));
    r
}

} // verus!
