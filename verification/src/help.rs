//! The command line's usage text.

use vstd::prelude::*;

verus! {

/// The usage text shown for the help mode.
pub struct Help;

impl Help {
    /// What the usage text says.
    pub open spec fn text_spec() -> Seq<char> {
        "tiny is a FastCGI application server.\n\n    Usage: tiny [start|stop|go|help] [-r <path to root>]\n\n    Actions:\n        start         : start the server in the background\n        stop          : stop a running server\n        go            : serve in the foreground\n        help          : show this help\n"@
    }

    /// The usage text; showing it is the caller's business.
    pub fn show() -> (t: String)
        ensures
            t@ == Help::text_spec(),
    {
        "tiny is a FastCGI application server.\n\n    Usage: tiny [start|stop|go|help] [-r <path to root>]\n\n    Actions:\n        start         : start the server in the background\n        stop          : stop a running server\n        go            : serve in the foreground\n        help          : show this help\n".to_owned()
    }
}

} // verus!
