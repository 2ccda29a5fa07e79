use vstd::prelude::*;

use crate::error::{Error, TransportError};
use crate::response::{decoded, CommandResult, ResultView};

verus! {

/// What one request/reply cycle yields, given what the read of the reply line
/// returned.
pub open spec fn reply_outcome(read: Result<Seq<u8>, TransportError>, allow_absent: bool) -> Result<
    ResultView,
    Error,
> {
    match read {
        Ok(line) => decoded(line, allow_absent),
        Err(TransportError::TimedOut) => if allow_absent {
            Ok(ResultView::Nothing)
        } else {
            Err(Error::Transport(TransportError::TimedOut))
        },
        Err(e) => Err(Error::Transport(e)),
    }
}

pub open spec fn read_view(read: Result<Vec<u8>, TransportError>) -> Result<Seq<u8>, TransportError> {
    match read {
        Ok(line) => Ok(line@),
        Err(e) => Err(e),
    }
}

/// The step that follows the read of a reply line: a timeout with no data is
/// `Nothing` where the command allows a missing reply and a timeout error
/// otherwise; other transport errors pass through; a line is decoded.
pub fn finish_exchange(read: Result<Vec<u8>, TransportError>, allow_absent: bool) -> (r: Result<
    CommandResult,
    Error,
>)
    ensures
        reply_outcome(read_view(read), allow_absent) matches Ok(v) ==> (r matches Ok(x) && x@ == v),
        reply_outcome(read_view(read), allow_absent) matches Err(e) ==> r == Err::<
            CommandResult,
            Error,
        >(e),
{
    match read {
        Ok(line) => CommandResult::parse_line(line.as_slice(), allow_absent),
        Err(TransportError::TimedOut) => if allow_absent {
            Ok(CommandResult::Nothing)
        } else {
            Err(Error::Transport(TransportError::TimedOut))
        },
        Err(e) => Err(Error::Transport(e)),
    }
}

} // verus!
