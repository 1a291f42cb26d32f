//! The STATus subsystem of SCPI-1999 and the ABORt command.
//!
//! `STATus:OPERation` and `STATus:QUEStionable` each give access to an event
//! register: `[:EVENt]?`, `:CONDition?`, `:ENABle`, `:NTRansition` and
//! `:PTRansition`. What is read is masked to fifteen bits.

use core::marker::PhantomData;
use vstd::prelude::*;
use crate::command::{Command, Context, Device};
use crate::error::{Error, ErrorCode};
use crate::ieee488::{failed, reply_unsigned, undefined_header};
use crate::response::{decimal_digits, Response};
use crate::status::{
    EventRegister, EventRegisterName, GetEventRegister, Status, REGISTER_MASK,
};
use crate::tokenizer::Tokenizer;
use crate::value::next_integer;

verus! {

/// The event register of the status that `T` names.
pub open spec fn register_of<T: EventRegisterName>(status: Status) -> EventRegister where
    Status: GetEventRegister<T>,
 {
    <Status as GetEventRegister<T>>::chosen(&status)
}

/// The status with another register in the place that `T` names.
pub open spec fn with_register<T: EventRegisterName>(
    status: Status,
    register: EventRegister,
) -> Status where Status: GetEventRegister<T> {
    <Status as GetEventRegister<T>>::with_chosen(&status, register)
}

/// The parts of an event register that a command sets.
#[derive(Clone, Copy, Debug, PartialEq, Eq, Structural)]
pub enum Part {
    Enable,
    NegativeFilter,
    PositiveFilter,
}

/// The status after a command that sets a part of the register that `T`
/// names: the part is set where the argument is a value, and nothing
/// changes where it is not.
pub open spec fn part_set<T: EventRegisterName>(
    status: Status,
    part: Part,
    value: Result<int, ErrorCode>,
) -> Status where Status: GetEventRegister<T> {
    match value {
        Ok(v) => with_register::<T>(
            status,
            match part {
                Part::Enable => register_of::<T>(status).with_enable(v as u16),
                Part::NegativeFilter => register_of::<T>(status).with_ntr(v as u16),
                Part::PositiveFilter => register_of::<T>(status).with_ptr(v as u16),
            },
        ),
        Err(_) => status,
    }
}

/// `STATus:PRESet`: sets the enable masks and the transition filters of the
/// SCPI registers to their preset values.
pub struct StatPresCommand;

impl<D: Device> Command<D> for StatPresCommand {
    fn event<'a>(
        &self,
        device: &mut D,
        status: &mut Status,
        context: &mut Context,
        args: &mut Tokenizer<'a>,
    ) -> (r: Result<(), Error>)
        ensures
            final(status)@ == old(status)@.after_preset(),
            *final(context) == *old(context),
            final(args)@ == old(args)@,
    {
        status.preset();
        device.exec_preset()
    }

    fn query<'a>(
        &self,
        device: &mut D,
        status: &mut Status,
        context: &mut Context,
        args: &mut Tokenizer<'a>,
        response: &mut Response,
    ) -> (r: Result<(), Error>)
        ensures
            r == Err::<(), Error>(undefined_header()),
            final(status)@ == old(status)@,
            *final(context) == *old(context),
            final(args)@ == old(args)@,
            final(response)@ == old(response)@,
    {
        Err(Error::new(ErrorCode::UndefinedHeader))
    }
}

/// `[:EVENt]?`: reads the event register and clears it.
pub struct EventCommand<T>(PhantomData<T>);

impl<T> EventCommand<T> {
    pub fn new() -> Self {
        Self(PhantomData)
    }
}

impl<D, T> Command<D> for EventCommand<T> where T: EventRegisterName, Status: GetEventRegister<T> {
    fn event<'a>(
        &self,
        device: &mut D,
        status: &mut Status,
        context: &mut Context,
        args: &mut Tokenizer<'a>,
    ) -> (r: Result<(), Error>)
        ensures
            r == Err::<(), Error>(undefined_header()),
            *final(status) == *old(status),
            *final(context) == *old(context),
            final(args)@ == old(args)@,
    {
        Err(Error::new(ErrorCode::UndefinedHeader))
    }

    fn query<'a>(
        &self,
        device: &mut D,
        status: &mut Status,
        context: &mut Context,
        args: &mut Tokenizer<'a>,
        response: &mut Response,
    ) -> (r: Result<(), Error>)
        ensures
            (r, final(response)@) == old(response)@.reply(
                decimal_digits((register_of::<T>(*old(status)).event & REGISTER_MASK) as nat),
            ),
            *final(status) == with_register::<T>(
                *old(status),
                register_of::<T>(*old(status)).with_event(0),
            ),
            *final(context) == *old(context),
            final(args)@ == old(args)@,
    {
        let register = GetEventRegister::<T>::register_mut(status);
        let event = register.read_event();
        reply_unsigned(response, event as u64)
    }
}

/// `:CONDition?`: reads the condition register, which stays as it is.
pub struct CondCommand<T>(PhantomData<T>);

impl<T> CondCommand<T> {
    pub fn new() -> Self {
        Self(PhantomData)
    }
}

impl<D, T> Command<D> for CondCommand<T> where T: EventRegisterName, Status: GetEventRegister<T> {
    fn event<'a>(
        &self,
        device: &mut D,
        status: &mut Status,
        context: &mut Context,
        args: &mut Tokenizer<'a>,
    ) -> (r: Result<(), Error>)
        ensures
            r == Err::<(), Error>(undefined_header()),
            *final(status) == *old(status),
            *final(context) == *old(context),
            final(args)@ == old(args)@,
    {
        Err(Error::new(ErrorCode::UndefinedHeader))
    }

    fn query<'a>(
        &self,
        device: &mut D,
        status: &mut Status,
        context: &mut Context,
        args: &mut Tokenizer<'a>,
        response: &mut Response,
    ) -> (r: Result<(), Error>)
        ensures
            (r, final(response)@) == old(response)@.reply(
                decimal_digits((register_of::<T>(*old(status)).condition & REGISTER_MASK) as nat),
            ),
            *final(status) == *old(status),
            *final(context) == *old(context),
            final(args)@ == old(args)@,
    {
        let condition = GetEventRegister::<T>::register(&*status).condition & REGISTER_MASK;
        reply_unsigned(response, condition as u64)
    }
}

/// `:ENABle`: sets and reads the enable mask, which says which events are
/// reported in the summary bit.
pub struct EnabCommand<T>(PhantomData<T>);

impl<T> EnabCommand<T> {
    pub fn new() -> Self {
        Self(PhantomData)
    }
}

impl<D, T> Command<D> for EnabCommand<T> where
    T: EventRegisterName,
    Status: GetEventRegister<T>,
 {
    fn event<'a>(
        &self,
        device: &mut D,
        status: &mut Status,
        context: &mut Context,
        args: &mut Tokenizer<'a>,
    ) -> (r: Result<(), Error>)
        ensures
            r == failed(old(args)@.integer_step(0, 0xffff).0),
            final(args)@ == old(args)@.integer_step(0, 0xffff).1,
            *final(status) == part_set::<T>(
                *old(status),
                Part::Enable,
                old(args)@.integer_step(0, 0xffff).0,
            ),
            *final(context) == *old(context),
    {
        match next_integer::<u16>(args) {
            Ok(value) => {
                let register = GetEventRegister::<T>::register_mut(status);
                register.enable = value;
                Ok(())
            },
            Err(error) => Err(error),
        }
    }

    fn query<'a>(
        &self,
        device: &mut D,
        status: &mut Status,
        context: &mut Context,
        args: &mut Tokenizer<'a>,
        response: &mut Response,
    ) -> (r: Result<(), Error>)
        ensures
            (r, final(response)@) == old(response)@.reply(
                decimal_digits((register_of::<T>(*old(status)).enable & REGISTER_MASK) as nat),
            ),
            *final(status) == *old(status),
            *final(context) == *old(context),
            final(args)@ == old(args)@,
    {
        let value = GetEventRegister::<T>::register(&*status).enable & REGISTER_MASK;
        reply_unsigned(response, value as u64)
    }
}

/// `:NTRansition`: sets and reads the negative transition filter.
pub struct NtrCommand<T>(PhantomData<T>);

impl<T> NtrCommand<T> {
    pub fn new() -> Self {
        Self(PhantomData)
    }
}

impl<D, T> Command<D> for NtrCommand<T> where
    T: EventRegisterName,
    Status: GetEventRegister<T>,
 {
    fn event<'a>(
        &self,
        device: &mut D,
        status: &mut Status,
        context: &mut Context,
        args: &mut Tokenizer<'a>,
    ) -> (r: Result<(), Error>)
        ensures
            r == failed(old(args)@.integer_step(0, 0xffff).0),
            final(args)@ == old(args)@.integer_step(0, 0xffff).1,
            *final(status) == part_set::<T>(
                *old(status),
                Part::NegativeFilter,
                old(args)@.integer_step(0, 0xffff).0,
            ),
            *final(context) == *old(context),
    {
        match next_integer::<u16>(args) {
            Ok(value) => {
                let register = GetEventRegister::<T>::register_mut(status);
                register.ntr_filter = value;
                Ok(())
            },
            Err(error) => Err(error),
        }
    }

    fn query<'a>(
        &self,
        device: &mut D,
        status: &mut Status,
        context: &mut Context,
        args: &mut Tokenizer<'a>,
        response: &mut Response,
    ) -> (r: Result<(), Error>)
        ensures
            (r, final(response)@) == old(response)@.reply(
                decimal_digits((register_of::<T>(*old(status)).ntr_filter & REGISTER_MASK) as nat),
            ),
            *final(status) == *old(status),
            *final(context) == *old(context),
            final(args)@ == old(args)@,
    {
        let value = GetEventRegister::<T>::register(&*status).ntr_filter & REGISTER_MASK;
        reply_unsigned(response, value as u64)
    }
}

/// `:PTRansition`: sets and reads the positive transition filter.
pub struct PtrCommand<T>(PhantomData<T>);

impl<T> PtrCommand<T> {
    pub fn new() -> Self {
        Self(PhantomData)
    }
}

impl<D, T> Command<D> for PtrCommand<T> where
    T: EventRegisterName,
    Status: GetEventRegister<T>,
 {
    fn event<'a>(
        &self,
        device: &mut D,
        status: &mut Status,
        context: &mut Context,
        args: &mut Tokenizer<'a>,
    ) -> (r: Result<(), Error>)
        ensures
            r == failed(old(args)@.integer_step(0, 0xffff).0),
            final(args)@ == old(args)@.integer_step(0, 0xffff).1,
            *final(status) == part_set::<T>(
                *old(status),
                Part::PositiveFilter,
                old(args)@.integer_step(0, 0xffff).0,
            ),
            *final(context) == *old(context),
    {
        match next_integer::<u16>(args) {
            Ok(value) => {
                let register = GetEventRegister::<T>::register_mut(status);
                register.ptr_filter = value;
                Ok(())
            },
            Err(error) => Err(error),
        }
    }

    fn query<'a>(
        &self,
        device: &mut D,
        status: &mut Status,
        context: &mut Context,
        args: &mut Tokenizer<'a>,
        response: &mut Response,
    ) -> (r: Result<(), Error>)
        ensures
            (r, final(response)@) == old(response)@.reply(
                decimal_digits((register_of::<T>(*old(status)).ptr_filter & REGISTER_MASK) as nat),
            ),
            *final(status) == *old(status),
            *final(context) == *old(context),
            final(args)@ == old(args)@,
    {
        let value = GetEventRegister::<T>::register(&*status).ptr_filter & REGISTER_MASK;
        reply_unsigned(response, value as u64)
    }
}

/// Access to the positive transition filter under a node that is named
/// after the bit `BIT`.
pub struct BitCommand<const BIT: usize, T>(PhantomData<T>);

impl<const BIT: usize, T> BitCommand<BIT, T> {
    pub fn new() -> Self {
        Self(PhantomData)
    }
}

impl<const BIT: usize, D, T> Command<D> for BitCommand<BIT, T> where
    T: EventRegisterName,
    Status: GetEventRegister<T>,
 {
    fn event<'a>(
        &self,
        device: &mut D,
        status: &mut Status,
        context: &mut Context,
        args: &mut Tokenizer<'a>,
    ) -> (r: Result<(), Error>)
        ensures
            r == failed(old(args)@.integer_step(0, 0xffff).0),
            final(args)@ == old(args)@.integer_step(0, 0xffff).1,
            *final(status) == part_set::<T>(
                *old(status),
                Part::PositiveFilter,
                old(args)@.integer_step(0, 0xffff).0,
            ),
            *final(context) == *old(context),
    {
        match next_integer::<u16>(args) {
            Ok(value) => {
                let register = GetEventRegister::<T>::register_mut(status);
                register.ptr_filter = value;
                Ok(())
            },
            Err(error) => Err(error),
        }
    }

    fn query<'a>(
        &self,
        device: &mut D,
        status: &mut Status,
        context: &mut Context,
        args: &mut Tokenizer<'a>,
        response: &mut Response,
    ) -> (r: Result<(), Error>)
        ensures
            (r, final(response)@) == old(response)@.reply(
                decimal_digits((register_of::<T>(*old(status)).ptr_filter & REGISTER_MASK) as nat),
            ),
            *final(status) == *old(status),
            *final(context) == *old(context),
            final(args)@ == old(args)@,
    {
        let value = GetEventRegister::<T>::register(&*status).ptr_filter & REGISTER_MASK;
        reply_unsigned(response, value as u64)
    }
}

/// A device with a trigger system that can be aborted.
pub trait Abort {
    /// Puts every trigger sequence into the idle state.
    fn abort(&mut self);
}

/// `ABORt`: resets the trigger system. It has no query form.
pub struct AbortCommand;

impl<D: Device + Abort> Command<D> for AbortCommand {
    fn event<'a>(
        &self,
        device: &mut D,
        status: &mut Status,
        context: &mut Context,
        args: &mut Tokenizer<'a>,
    ) -> (r: Result<(), Error>)
        ensures
            r == Ok::<(), Error>(()),
            final(status)@ == old(status)@,
            *final(context) == *old(context),
            final(args)@ == old(args)@,
    {
        device.abort();
        Ok(())
    }

    fn query<'a>(
        &self,
        device: &mut D,
        status: &mut Status,
        context: &mut Context,
        args: &mut Tokenizer<'a>,
        response: &mut Response,
    ) -> (r: Result<(), Error>)
        ensures
            r == Err::<(), Error>(undefined_header()),
            final(status)@ == old(status)@,
            *final(context) == *old(context),
            final(args)@ == old(args)@,
            final(response)@ == old(response)@,
    {
        Err(Error::new(ErrorCode::UndefinedHeader))
    }
}

} // verus!
