//! Why no event could be read.

use crate::outside::compact_text;
use compact_str::CompactString;
use vstd::prelude::*;

verus! {

/// Why no event could be read.
#[derive(Debug)]
pub enum Error {
    /// The value of `ACTION` is no action; it is the one given here.
    UnexpectedAction(CompactString),
    /// The value of `SEQNUM` is no sequence number; it is the one given here.
    InvalidSeqNum(CompactString),
    /// Reading the files of a device failed.
    Io(std::io::Error),
    /// The path is not under the sysfs root mountpoint.
    NotUnderSysfs,
    /// The packet is not valid UTF-8.
    InvalidUtf8,
    /// There is no `ACTION`.
    ActionNotFound,
    /// There is no `DEVPATH`.
    DevPathNotFound,
    /// There is no `SUBSYSTEM`.
    SubsystemNotFound,
    /// There is no `SEQNUM`.
    SeqMissing,
}

/// An [`Error`] with its texts as sequences of characters.
pub enum ErrorView {
    UnexpectedAction(Seq<char>),
    InvalidSeqNum(Seq<char>),
    Io(std::io::Error),
    NotUnderSysfs,
    InvalidUtf8,
    ActionNotFound,
    DevPathNotFound,
    SubsystemNotFound,
    SeqMissing,
}

impl View for Error {
    type V = ErrorView;

    open spec fn view(&self) -> ErrorView {
        match *self {
            Error::UnexpectedAction(s) => ErrorView::UnexpectedAction(compact_text(s)),
            Error::InvalidSeqNum(s) => ErrorView::InvalidSeqNum(compact_text(s)),
            Error::Io(e) => ErrorView::Io(e),
            Error::NotUnderSysfs => ErrorView::NotUnderSysfs,
            Error::InvalidUtf8 => ErrorView::InvalidUtf8,
            Error::ActionNotFound => ErrorView::ActionNotFound,
            Error::DevPathNotFound => ErrorView::DevPathNotFound,
            Error::SubsystemNotFound => ErrorView::SubsystemNotFound,
            Error::SeqMissing => ErrorView::SeqMissing,
        }
    }
}

/// The view of an error is of the same kind as the error and has the same text or cause.
pub proof fn law_views_keep_the_kind(e: Error)
    ensures
        e is UnexpectedAction <==> e@ is UnexpectedAction,
        e is InvalidSeqNum <==> e@ is InvalidSeqNum,
        e is Io <==> e@ is Io,
        e is NotUnderSysfs <==> e@ is NotUnderSysfs,
        e is InvalidUtf8 <==> e@ is InvalidUtf8,
        e is ActionNotFound <==> e@ is ActionNotFound,
        e is DevPathNotFound <==> e@ is DevPathNotFound,
        e is SubsystemNotFound <==> e@ is SubsystemNotFound,
        e is SeqMissing <==> e@ is SeqMissing,
        e matches Error::UnexpectedAction(s) ==> e@->UnexpectedAction_0 == compact_text(s),
        e matches Error::InvalidSeqNum(s) ==> e@->InvalidSeqNum_0 == compact_text(s),
        e matches Error::Io(cause) ==> e@->Io_0 == cause,
{
}

} // verus!
