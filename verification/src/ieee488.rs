//! The common commands that IEEE 488.2 makes mandatory.
//!
//! | Mnemonic | Name                                 |
//! |----------|--------------------------------------|
//! | `*CLS`   | Clear Status Command                 |
//! | `*ESE`   | Standard Event Status Enable Command |
//! | `*ESE?`  | Standard Event Status Enable Query   |
//! | `*ESR?`  | Standard Event Status Register Query |
//! | `*IDN?`  | Identification Query                 |
//! | `*OPC`   | Operation Complete Command           |
//! | `*OPC?`  | Operation Complete Query             |
//! | `*RST`   | Reset Command                        |
//! | `*SRE`   | Service Request Enable Command       |
//! | `*SRE?`  | Service Request Enable Query         |
//! | `*STB?`  | Read Status Byte Query               |
//! | `*TST?`  | Self-Test Query                      |
//! | `*WAI`   | Wait-To-Continue                     |

use vstd::prelude::*;
use crate::command::{Command, Context, Device};
use crate::error::{Error, ErrorCode};
use crate::response::{boolean_digit, decimal_digits, signed_digits, Response, ResponseView};
use crate::status::{Status, StatusView};
use crate::tokenizer::Tokenizer;
use crate::value::next_integer;

verus! {

/// The error of a command that is asked for a form that it does not have.
pub open spec fn undefined_header() -> Error {
    Error { code: ErrorCode::UndefinedHeader }
}

/// The error with the given code, where a conversion has failed.
pub open spec fn failed(code: Result<int, ErrorCode>) -> Result<(), Error> {
    match code {
        Ok(_) => Ok(()),
        Err(c) => Err(Error { code: c }),
    }
}

/// The status after `*ESE` with the given argument: the event status
/// enable register is set where the argument is a value, and nothing
/// changes where it is not.
pub open spec fn ese_after(status: StatusView, value: Result<int, ErrorCode>) -> StatusView {
    match value {
        Ok(v) => status.with_ese(v as u8),
        Err(_) => status,
    }
}

/// The status after `*SRE` with the given argument: the service request
/// enable register is set, but for bit 6, where the argument is a value,
/// and nothing changes where it is not.
pub open spec fn sre_after(status: StatusView, value: Result<int, ErrorCode>) -> StatusView {
    match value {
        Ok(v) => status.with_sre(v as u8),
        Err(_) => status,
    }
}

/// `*CLS`: clears the event registers and the error queue. The enable
/// registers are left as they are.
pub struct ClsCommand;

impl<D: Device> Command<D> for ClsCommand {
    fn event<'a>(
        &self,
        device: &mut D,
        status: &mut Status,
        context: &mut Context,
        args: &mut Tokenizer<'a>,
    ) -> (r: Result<(), Error>)
        ensures
            final(status)@ == old(status)@.cleared(),
            *final(context) == *old(context),
            final(args)@ == old(args)@,
    {
        status.clear();
        device.exec_cls()
    }

    fn query<'a>(
        &self,
        device: &mut D,
        status: &mut Status,
        context: &mut Context,
        args: &mut Tokenizer<'a>,
        response: &mut Response,
    ) -> (r: Result<(), Error>)
        ensures
            r == Err::<(), Error>(undefined_header()),
            final(status)@ == old(status)@,
            *final(context) == *old(context),
            final(args)@ == old(args)@,
            final(response)@ == old(response)@,
    {
        Err(Error::new(ErrorCode::UndefinedHeader))
    }
}

/// `*ESE` and `*ESE?`: sets and reads the event status enable register.
pub struct EseCommand;

impl<D: Device> Command<D> for EseCommand {
    fn event<'a>(
        &self,
        device: &mut D,
        status: &mut Status,
        context: &mut Context,
        args: &mut Tokenizer<'a>,
    ) -> (r: Result<(), Error>)
        ensures
            r == failed(old(args)@.integer_step(0, 0xff).0),
            final(args)@ == old(args)@.integer_step(0, 0xff).1,
            final(status)@ == ese_after(old(status)@, old(args)@.integer_step(0, 0xff).0),
            *final(context) == *old(context),
    {
        match next_integer::<u8>(args) {
            Ok(value) => {
                status.set_ese(value);
                Ok(())
            },
            Err(error) => Err(error),
        }
    }

    fn query<'a>(
        &self,
        device: &mut D,
        status: &mut Status,
        context: &mut Context,
        args: &mut Tokenizer<'a>,
        response: &mut Response,
    ) -> (r: Result<(), Error>)
        ensures
            (r, final(response)@) == old(response)@.reply(decimal_digits(old(status).ese as nat)),
            final(status)@ == old(status)@,
            *final(context) == *old(context),
            final(args)@ == old(args)@,
    {
        reply_unsigned(response, status.ese() as u64)
    }
}

/// Writes one unsigned integer as the whole answer of a unit.
pub fn reply_unsigned(response: &mut Response, value: u64) -> (r: Result<(), Error>)
    ensures
        (r, final(response)@) == old(response)@.reply(decimal_digits(value as nat)),
{
    match response.unsigned(value) {
        Ok(_) => response.finish(),
        Err(error) => Err(error),
    }
}

/// `*ESR?`: reads the event status register and clears it.
pub struct EsrCommand;

impl<D: Device> Command<D> for EsrCommand {
    fn event<'a>(
        &self,
        device: &mut D,
        status: &mut Status,
        context: &mut Context,
        args: &mut Tokenizer<'a>,
    ) -> (r: Result<(), Error>)
        ensures
            r == Err::<(), Error>(undefined_header()),
            final(status)@ == old(status)@,
            *final(context) == *old(context),
            final(args)@ == old(args)@,
    {
        Err(Error::new(ErrorCode::UndefinedHeader))
    }

    fn query<'a>(
        &self,
        device: &mut D,
        status: &mut Status,
        context: &mut Context,
        args: &mut Tokenizer<'a>,
        response: &mut Response,
    ) -> (r: Result<(), Error>)
        ensures
            (r, final(response)@) == old(response)@.reply(decimal_digits(old(status).esr as nat)),
            final(status)@ == old(status)@.with_esr(0),
            *final(context) == *old(context),
            final(args)@ == old(args)@,
    {
        let esr = status.esr();
        status.set_esr(0);
        reply_unsigned(response, esr as u64)
    }
}

/// `*IDN?`: reports the four fields that identify the device.
pub struct IdnCommand<'b> {
    pub manufacturer: &'b [u8],
    pub model: &'b [u8],
    pub serial: &'b [u8],
    pub firmware: &'b [u8],
}

impl<'b, D: Device> Command<D> for IdnCommand<'b> {
    fn event<'a>(
        &self,
        device: &mut D,
        status: &mut Status,
        context: &mut Context,
        args: &mut Tokenizer<'a>,
    ) -> (r: Result<(), Error>)
        ensures
            r == Err::<(), Error>(undefined_header()),
            final(status)@ == old(status)@,
            *final(context) == *old(context),
            final(args)@ == old(args)@,
    {
        Err(Error::new(ErrorCode::UndefinedHeader))
    }

    fn query<'a>(
        &self,
        device: &mut D,
        status: &mut Status,
        context: &mut Context,
        args: &mut Tokenizer<'a>,
        response: &mut Response,
    ) -> (r: Result<(), Error>)
        ensures
            (r, final(response)@) == ResponseView::and_finish(
                ResponseView::and_write(
                    ResponseView::and_write(
                        ResponseView::and_write(
                            old(response)@.write(self.manufacturer@),
                            self.model@,
                        ),
                        self.serial@,
                    ),
                    self.firmware@,
                ),
            ),
            final(status)@ == old(status)@,
            *final(context) == *old(context),
            final(args)@ == old(args)@,
    {
        match response.character(self.manufacturer) {
            Ok(_) => {},
            Err(error) => {
                return Err(error);
            },
        }
        match response.character(self.model) {
            Ok(_) => {},
            Err(error) => {
                return Err(error);
            },
        }
        match response.character(self.serial) {
            Ok(_) => {},
            Err(error) => {
                return Err(error);
            },
        }
        match response.character(self.firmware) {
            Ok(_) => {},
            Err(error) => {
                return Err(error);
            },
        }
        response.finish()
    }
}

/// `*OPC` and `*OPC?`: asks for the operation complete message, and
/// answers `1` once the pending operations are complete. For a device
/// whose commands run one after the other that is at once.
pub struct OpcCommand;

impl<D: Device> Command<D> for OpcCommand {
    fn event<'a>(
        &self,
        device: &mut D,
        status: &mut Status,
        context: &mut Context,
        args: &mut Tokenizer<'a>,
    ) -> (r: Result<(), Error>)
        ensures
            final(status)@ == old(status)@,
            *final(context) == *old(context),
            final(args)@ == old(args)@,
    {
        device.exec_opc()
    }

    fn query<'a>(
        &self,
        device: &mut D,
        status: &mut Status,
        context: &mut Context,
        args: &mut Tokenizer<'a>,
        response: &mut Response,
    ) -> (r: Result<(), Error>)
        ensures
            (r, final(response)@) == old(response)@.reply(boolean_digit(true)),
            final(status)@ == old(status)@,
            *final(context) == *old(context),
            final(args)@ == old(args)@,
    {
        match response.boolean(true) {
            Ok(_) => response.finish(),
            Err(error) => Err(error),
        }
    }
}

/// `*RST`: resets the device. The status registers, their enable masks and
/// filters, the error queue and the response are out of its reach.
pub struct RstCommand;

impl<D: Device> Command<D> for RstCommand {
    fn event<'a>(
        &self,
        device: &mut D,
        status: &mut Status,
        context: &mut Context,
        args: &mut Tokenizer<'a>,
    ) -> (r: Result<(), Error>)
        ensures
            final(status)@ == old(status)@,
            *final(context) == *old(context),
            final(args)@ == old(args)@,
    {
        device.exec_rst()
    }

    fn query<'a>(
        &self,
        device: &mut D,
        status: &mut Status,
        context: &mut Context,
        args: &mut Tokenizer<'a>,
        response: &mut Response,
    ) -> (r: Result<(), Error>)
        ensures
            r == Err::<(), Error>(undefined_header()),
            final(status)@ == old(status)@,
            *final(context) == *old(context),
            final(args)@ == old(args)@,
            final(response)@ == old(response)@,
    {
        Err(Error::new(ErrorCode::UndefinedHeader))
    }
}

/// `*SRE` and `*SRE?`: sets and reads the service request enable register,
/// of which bit 6 cannot be set.
pub struct SreCommand;

impl<D: Device> Command<D> for SreCommand {
    fn event<'a>(
        &self,
        device: &mut D,
        status: &mut Status,
        context: &mut Context,
        args: &mut Tokenizer<'a>,
    ) -> (r: Result<(), Error>)
        ensures
            r == failed(old(args)@.integer_step(0, 0xff).0),
            final(args)@ == old(args)@.integer_step(0, 0xff).1,
            final(status)@ == sre_after(old(status)@, old(args)@.integer_step(0, 0xff).0),
            *final(context) == *old(context),
    {
        match next_integer::<u8>(args) {
            Ok(value) => {
                status.set_sre(value);
                Ok(())
            },
            Err(error) => Err(error),
        }
    }

    fn query<'a>(
        &self,
        device: &mut D,
        status: &mut Status,
        context: &mut Context,
        args: &mut Tokenizer<'a>,
        response: &mut Response,
    ) -> (r: Result<(), Error>)
        ensures
            (r, final(response)@) == old(response)@.reply(decimal_digits(old(status).sre as nat)),
            final(status)@ == old(status)@,
            *final(context) == *old(context),
            final(args)@ == old(args)@,
    {
        reply_unsigned(response, status.sre() as u64)
    }
}

/// `*STB?`: reads the status byte, with the message-available bit as the
/// context has it from the transport.
pub struct StbCommand;

impl<D: Device> Command<D> for StbCommand {
    fn event<'a>(
        &self,
        device: &mut D,
        status: &mut Status,
        context: &mut Context,
        args: &mut Tokenizer<'a>,
    ) -> (r: Result<(), Error>)
        ensures
            r == Err::<(), Error>(undefined_header()),
            final(status)@ == old(status)@,
            *final(context) == *old(context),
            final(args)@ == old(args)@,
    {
        Err(Error::new(ErrorCode::UndefinedHeader))
    }

    fn query<'a>(
        &self,
        device: &mut D,
        status: &mut Status,
        context: &mut Context,
        args: &mut Tokenizer<'a>,
        response: &mut Response,
    ) -> (r: Result<(), Error>)
        ensures
            (r, final(response)@) == old(response)@.reply(
                decimal_digits(old(status)@.status_byte(old(context).mav) as nat),
            ),
            final(status)@ == old(status)@,
            *final(context) == *old(context),
            final(args)@ == old(args)@,
    {
        let stb = status.read_stb(context.mav);
        reply_unsigned(response, stb as u64)
    }
}

/// The number that answers `*TST?`: zero where the self-test has passed,
/// and the number of its error where it has failed.
pub open spec fn self_test_code(outcome: Result<(), Error>) -> int {
    match outcome {
        Ok(_) => 0,
        Err(error) => error.code.code(),
    }
}

/// Writes the answer to `*TST?` for the given outcome of the self-test.
pub fn reply_self_test(response: &mut Response, outcome: Result<(), Error>) -> (r: Result<
    (),
    Error,
>)
    ensures
        (r, final(response)@) == old(response)@.reply(signed_digits(self_test_code(outcome))),
{
    let code: i16 = match outcome {
        Ok(_) => 0,
        Err(error) => error.get_code(),
    };
    match response.integer(code as i64) {
        Ok(_) => response.finish(),
        Err(error) => Err(error),
    }
}

/// `*TST?`: runs the self-test of the device and answers zero where it has
/// passed and the number of its error where it has failed.
pub struct TstCommand;

impl<D: Device> Command<D> for TstCommand {
    fn event<'a>(
        &self,
        device: &mut D,
        status: &mut Status,
        context: &mut Context,
        args: &mut Tokenizer<'a>,
    ) -> (r: Result<(), Error>)
        ensures
            r == Err::<(), Error>(undefined_header()),
            final(status)@ == old(status)@,
            *final(context) == *old(context),
            final(args)@ == old(args)@,
    {
        Err(Error::new(ErrorCode::UndefinedHeader))
    }

    fn query<'a>(
        &self,
        device: &mut D,
        status: &mut Status,
        context: &mut Context,
        args: &mut Tokenizer<'a>,
        response: &mut Response,
    ) -> (r: Result<(), Error>)
        ensures
            exists|outcome: Result<(), Error>|
                (r, final(response)@) == old(response)@.reply(
                    signed_digits(self_test_code(outcome)),
                ),
            final(status)@ == old(status)@,
            *final(context) == *old(context),
            final(args)@ == old(args)@,
    {
        let outcome = device.exec_tst();
        reply_self_test(response, outcome)
    }
}

/// `*WAI`: waits until no operation is pending. For a device whose
/// commands run one after the other there is nothing to wait for.
pub struct WaiCommand;

impl<D: Device> Command<D> for WaiCommand {
    fn event<'a>(
        &self,
        device: &mut D,
        status: &mut Status,
        context: &mut Context,
        args: &mut Tokenizer<'a>,
    ) -> (r: Result<(), Error>)
        ensures
            r == Ok::<(), Error>(()),
            final(status)@ == old(status)@,
            *final(context) == *old(context),
            final(args)@ == old(args)@,
    {
        Ok(())
    }

    fn query<'a>(
        &self,
        device: &mut D,
        status: &mut Status,
        context: &mut Context,
        args: &mut Tokenizer<'a>,
        response: &mut Response,
    ) -> (r: Result<(), Error>)
        ensures
            r == Err::<(), Error>(undefined_header()),
            final(status)@ == old(status)@,
            *final(context) == *old(context),
            final(args)@ == old(args)@,
            final(response)@ == old(response)@,
    {
        Err(Error::new(ErrorCode::UndefinedHeader))
    }
}

} // verus!
