//! Arguments of the program, and directions of a body.

use crate::buoyancy::hydro::Rotation;
use crate::geom::Point;
use vstd::prelude::*;
use vstd::string::*;

verus! {

/// How the program was started.
#[derive(Clone, Copy, Debug, PartialEq, Eq, Structural)]
pub struct Args {
    pub is_server: bool,
}

/// Whether an argument asks for the server.
pub open spec fn asks_for_server(arg: Seq<char>) -> bool {
    arg == "--server"@ || arg == "-s"@
}

/// Whether two texts are the same.
fn same_text(a: &str, b: &str) -> (same: bool)
    ensures
        same == (a@ == b@),
{
    let n: usize = a.unicode_len();
    if n != b.unicode_len() {
        return false;
    }
    let mut i: usize = 0;
    while i < n
        invariant
            n == a@.len(),
            n == b@.len(),
            i <= n,
            forall|k: int| 0 <= k < i ==> a@[k] == b@[k],
        decreases n - i,
    {
        if a.get_char(i) != b.get_char(i) {
            return false;
        }
        i = i + 1;
    }
    assert(a@ =~= b@);
    true
}

/// The arguments of a program on a desktop.
pub fn parse_args(args: &[String]) -> (parsed: Args)
    ensures
        parsed.is_server <==> exists|i: int|
            0 <= i < args@.len() && #[trigger] asks_for_server(args@[i]@),
{
    let mut i: usize = 0;
    while i < args.len()
        invariant
            i <= args.len(),
            forall|k: int| 0 <= k < i ==> !#[trigger] asks_for_server(args@[k]@),
        decreases args.len() - i,
    {
        let arg: &str = args[i].as_str();
        if same_text(arg, "--server") || same_text(arg, "-s") {
            assert(asks_for_server(args@[i as int]@));
            return Args { is_server: true };
        }
        i = i + 1;
    }
    Args { is_server: false }
}

/// The arguments of a program in a browser. A page is started without any, and whatever is
/// handed to it, it is never a server.
pub fn parse_args_in_browser(_args: &[String]) -> (parsed: Args)
    ensures
        !parsed.is_server,
{
    Args { is_server: false }
}

/// Directions of a body, in millionths.
pub trait TransformExt {
    /// The matrix by which the body is turned.
    spec fn turn(&self) -> Rotation;

    fn right(&self) -> (d: Point)
        ensures
            d == self.turn().x_axis,
    ;

    fn up(&self) -> (d: Point)
        ensures
            d == self.turn().y_axis,
    ;
}

impl TransformExt for Rotation {
    open spec fn turn(&self) -> Rotation {
        *self
    }

    fn right(&self) -> (d: Point) {
        self.x_axis
    }

    fn up(&self) -> (d: Point) {
        self.y_axis
    }
}

/// Just the long and the short form of the argument ask for the server.
pub proof fn law_two_forms_ask_for_the_server(arg: Seq<char>)
    ensures
        asks_for_server(arg) <==> arg == seq!['-', '-', 's', 'e', 'r', 'v', 'e', 'r'] || arg
            == seq!['-', 's'],
{
    reveal_strlit("--server");
    reveal_strlit("-s");
    assert("--server"@ =~= seq!['-', '-', 's', 'e', 'r', 'v', 'e', 'r']);
    assert("-s"@ =~= seq!['-', 's']);
}

} // verus!
