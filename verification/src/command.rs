//! What a command handler is, and what it is handed.

use vstd::prelude::*;
use crate::error::Error;
use crate::response::Response;
use crate::status::Status;
use crate::tokenizer::Tokenizer;

verus! {

/// The state of the processing of one program message.
#[derive(Clone, Copy, Debug, PartialEq, Eq, Structural)]
pub struct Context {
    /// The header path: the node of the command tree at which a header
    /// without a leading `:` is looked up.
    pub path: usize,
    /// Whether a response is waiting in the output queue of the transport.
    pub mav: bool,
    /// Whether `#s"..."` in a message is read as a UTF-8 block, which is an
    /// extension of the standard.
    pub utf8_blocks: bool,
}

impl Context {
    /// The context of a message: the header path is the root, no response
    /// is waiting, and the standard is kept to.
    pub open spec fn start() -> Context {
        Context { path: 0, mav: false, utf8_blocks: false }
    }

    /// The context at the start of a message.
    pub fn new() -> (r: Self)
        ensures
            r == Self::start(),
    {
        Context { path: 0, mav: false, utf8_blocks: false }
    }
}

/// What the device itself does on the common commands. The status is kept
/// by the engine and is out of reach of these operations.
pub trait Device {
    /// Clears the status that is particular to the device.
    fn exec_cls(&mut self) -> Result<(), Error>;

    /// Resets the device.
    fn exec_rst(&mut self) -> Result<(), Error>;

    /// Runs the self-test.
    fn exec_tst(&mut self) -> Result<(), Error>;

    /// Notes that the completion of the pending operations is to be
    /// reported.
    fn exec_opc(&mut self) -> Result<(), Error>;

    /// Presets the status that is particular to the device.
    fn exec_preset(&mut self) -> Result<(), Error>;
}

/// A command handler. A command that has no query form refuses `query`
/// with `UndefinedHeader`, and a query that has no command form refuses
/// `event`.
pub trait Command<D> {
    /// Runs the command. The arguments are read from `args`.
    fn event<'a>(
        &self,
        device: &mut D,
        status: &mut Status,
        context: &mut Context,
        args: &mut Tokenizer<'a>,
    ) -> Result<(), Error>;

    /// Runs the query. The arguments are read from `args`, and the answer
    /// is written to `response`.
    fn query<'a>(
        &self,
        device: &mut D,
        status: &mut Status,
        context: &mut Context,
        args: &mut Tokenizer<'a>,
        response: &mut Response,
    ) -> Result<(), Error>;
}

} // verus!
