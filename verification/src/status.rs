//! Status reporting: the registers of IEEE 488.2, the event registers of
//! SCPI with their transition filters, and the error queue.

use vstd::prelude::*;
use crate::error::{Error, ErrorCode};

verus! {

/// The bits of an event register that can be read: the highest bit is
/// reserved.
pub const REGISTER_MASK: u16 = 0x7fff;

/// Status byte bit that summarises the OPERation register.
pub const STB_OPERATION: u8 = 0x80;

/// Status byte bit that summarises the event status register.
pub const STB_EVENT_STATUS: u8 = 0x20;

/// Status byte bit that says that a response is waiting.
pub const STB_MESSAGE_AVAILABLE: u8 = 0x10;

/// Status byte bit that summarises the QUEStionable register.
pub const STB_QUESTIONABLE: u8 = 0x08;

/// Status byte bit that says that the error queue is not empty.
pub const STB_ERROR_QUEUE: u8 = 0x04;

/// The bit of the service request enable register that cannot be set.
pub const SRE_MASKED: u8 = 0x40;

/// A condition register with its event register, enable mask and
/// transition filters.
#[derive(Clone, Copy, Debug, PartialEq, Eq, Structural)]
pub struct EventRegister {
    pub condition: u16,
    pub event: u16,
    pub enable: u16,
    pub ptr_filter: u16,
    pub ntr_filter: u16,
}

impl EventRegister {
    /// The events that a change of the condition to `condition` raises: the
    /// bits that go from 0 to 1 and pass the positive filter, and those that
    /// go from 1 to 0 and pass the negative filter.
    pub open spec fn raised(self, condition: u16) -> u16 {
        (!self.condition & condition & self.ptr_filter) | (self.condition & !condition
            & self.ntr_filter)
    }

    /// The register after the condition has changed to `condition`.
    pub open spec fn updated(self, condition: u16) -> EventRegister {
        EventRegister { condition, event: self.event | self.raised(condition), ..self }
    }

    /// The events that are enabled, without the reserved bit.
    pub open spec fn enabled_events(self) -> u16 {
        self.event & self.enable & REGISTER_MASK
    }

    /// The register after STATus:PRESet: nothing enabled, every positive
    /// transition recorded, no negative one.
    pub open spec fn after_preset(self) -> EventRegister {
        EventRegister { enable: 0, ptr_filter: REGISTER_MASK, ntr_filter: 0, ..self }
    }

    /// The register with every bit cleared.
    pub open spec fn zero() -> EventRegister {
        EventRegister { condition: 0, event: 0, enable: 0, ptr_filter: 0, ntr_filter: 0 }
    }

    /// The register with another event register.
    pub open spec fn with_event(self, event: u16) -> EventRegister {
        EventRegister { event, ..self }
    }

    /// The register with another enable mask.
    pub open spec fn with_enable(self, enable: u16) -> EventRegister {
        EventRegister { enable, ..self }
    }

    /// The register with another negative transition filter.
    pub open spec fn with_ntr(self, ntr_filter: u16) -> EventRegister {
        EventRegister { ntr_filter, ..self }
    }

    /// The register with another positive transition filter.
    pub open spec fn with_ptr(self, ptr_filter: u16) -> EventRegister {
        EventRegister { ptr_filter, ..self }
    }

    /// A register with every bit cleared.
    pub fn new() -> (r: Self)
        ensures
            r == Self::zero(),
    {
        EventRegister { condition: 0, event: 0, enable: 0, ptr_filter: 0, ntr_filter: 0 }
    }

    /// Changes the condition and records the transitions that pass the
    /// filters as events.
    pub fn set_condition(&mut self, condition: u16)
        ensures
            *final(self) == old(self).updated(condition),
    {
        let raised = (!self.condition & condition & self.ptr_filter) | (self.condition & !condition
            & self.ntr_filter);
        self.event = self.event | raised;
        self.condition = condition;
    }

    /// Whether an enabled event is set, which sets the summary bit of the
    /// register in the status byte.
    pub fn get_summary(&self) -> (r: bool)
        ensures
            r == (self.enabled_events() != 0),
    {
        (self.event & self.enable & REGISTER_MASK) != 0
    }

    /// Reads the event register and clears it.
    pub fn read_event(&mut self) -> (r: u16)
        ensures
            r == old(self).event & REGISTER_MASK,
            *final(self) == old(self).with_event(0),
    {
        let event = self.event & REGISTER_MASK;
        self.event = 0;
        event
    }

    /// Clears the event register.
    pub fn clear_event(&mut self)
        ensures
            *final(self) == old(self).with_event(0),
    {
        self.event = 0;
    }

    /// Sets enable mask and filters as STATus:PRESet asks.
    pub fn preset(&mut self)
        ensures
            *final(self) == old(self).after_preset(),
    {
        self.enable = 0;
        self.ptr_filter = REGISTER_MASK;
        self.ntr_filter = 0;
    }
}

/// A change of the condition sets an event bit where the bit goes from 0
/// to 1 and the positive filter has it, and where it goes from 1 to 0 and
/// the negative filter has it. It sets no other bit, and it clears none.
pub proof fn lemma_transitions(register: EventRegister, condition: u16, bit: u16)
    ensures
        register.condition & bit == 0 && condition & bit == bit && register.ptr_filter & bit == bit
            ==> register.updated(condition).event & bit == bit,
        register.condition & bit == bit && condition & bit == 0 && register.ntr_filter & bit == bit
            ==> register.updated(condition).event & bit == bit,
        register.event & bit == bit ==> register.updated(condition).event & bit == bit,
        register.event & bit == 0 && register.condition & bit == condition & bit
            ==> register.updated(condition).event & bit == 0,
        register.event & bit == 0 && register.ptr_filter & bit == 0 && register.ntr_filter & bit == 0
            ==> register.updated(condition).event & bit == 0,
{
    let old = register.condition;
    let event = register.event;
    let ptr = register.ptr_filter;
    let ntr = register.ntr_filter;
    let new = event | ((!old & condition & ptr) | (old & !condition & ntr));
    assert(register.updated(condition).event == new);
    assert(old & bit == 0 && condition & bit == bit && ptr & bit == bit ==> new & bit == bit)
        by (bit_vector)
        requires
            new == event | ((!old & condition & ptr) | (old & !condition & ntr)),
    ;
    assert(old & bit == bit && condition & bit == 0 && ntr & bit == bit ==> new & bit == bit)
        by (bit_vector)
        requires
            new == event | ((!old & condition & ptr) | (old & !condition & ntr)),
    ;
    assert(event & bit == bit ==> new & bit == bit) by (bit_vector)
        requires
            new == event | ((!old & condition & ptr) | (old & !condition & ntr)),
    ;
    assert(event & bit == 0 && old & bit == condition & bit ==> new & bit == 0) by (bit_vector)
        requires
            new == event | ((!old & condition & ptr) | (old & !condition & ntr)),
    ;
    assert(event & bit == 0 && ptr & bit == 0 && ntr & bit == 0 ==> new & bit == 0)
        by (bit_vector)
        requires
            new == event | ((!old & condition & ptr) | (old & !condition & ntr)),
    ;
}

/// The queue after an error has been put at its end. A full queue takes no
/// further error: its last entry becomes `QueueOverflow` instead.
pub open spec fn queue_pushed(items: Seq<Error>, capacity: nat, error: Error) -> Seq<Error> {
    if items.len() < capacity {
        items.push(error)
    } else {
        items.drop_last().push(Error { code: ErrorCode::QueueOverflow })
    }
}

/// The error at the head of the queue; `NoError` where the queue is empty.
pub open spec fn queue_head(items: Seq<Error>) -> Error {
    if items.len() > 0 {
        items[0]
    } else {
        Error { code: ErrorCode::NoError }
    }
}

/// The queue without its head.
pub open spec fn queue_tail(items: Seq<Error>) -> Seq<Error> {
    if items.len() > 0 {
        items.drop_first()
    } else {
        items
    }
}

/// A queue of errors of bounded length, first in, first out. It has room
/// for at least one error and never holds more than it has room for.
pub struct ErrorQueue {
    items: Vec<Error>,
    capacity: usize,
}

impl View for ErrorQueue {
    type V = Seq<Error>;

    closed spec fn view(&self) -> Seq<Error> {
        if self.items@.len() <= self.capacity() {
            self.items@
        } else {
            self.items@.take(self.capacity() as int)
        }
    }
}

impl ErrorQueue {
    #[verifier::type_invariant]
    spec fn inv(self) -> bool {
        1 <= self.capacity && self.items@.len() <= self.capacity
    }

    /// The most errors that the queue holds.
    pub closed spec fn capacity(&self) -> nat {
        if self.capacity == 0 {
            1
        } else {
            self.capacity as nat
        }
    }

    /// A queue has room for at least one error and holds no more errors
    /// than it has room for.
    pub proof fn lemma_bounded(self)
        ensures
            1 <= self.capacity(),
            self@.len() <= self.capacity(),
    {
    }

    /// An empty queue that holds up to `capacity` errors, and at least one.
    pub fn new(capacity: usize) -> (r: Self)
        ensures
            r@ == Seq::<Error>::empty(),
            r.capacity() == if capacity == 0 {
                1
            } else {
                capacity as nat
            },
    {
        ErrorQueue {
            items: Vec::new(),
            capacity: if capacity == 0 {
                1
            } else {
                capacity
            },
        }
    }

    /// Puts an error at the end of the queue.
    pub fn push_back_error(&mut self, error: Error)
        ensures
            final(self)@ == queue_pushed(old(self)@, old(self).capacity(), error),
            final(self).capacity() == old(self).capacity(),
    {
        proof {
            use_type_invariant(&*self);
        }
        let full = self.items.len() >= self.capacity;
        let mut items: Vec<Error> = Vec::new();
        core::mem::swap(&mut self.items, &mut items);
        if full {
            items.pop();
            items.push(Error::new(ErrorCode::QueueOverflow));
            proof {
                assert(old(self)@.subrange(0, old(self)@.len() - 1) =~= old(self)@.drop_last());
            }
        } else {
            items.push(error);
        }
        core::mem::swap(&mut self.items, &mut items);
    }

    /// Takes the oldest error out of the queue; `NoError` where the queue
    /// is empty.
    pub fn pop_front_error(&mut self) -> (r: Error)
        ensures
            r == queue_head(old(self)@),
            final(self)@ == queue_tail(old(self)@),
            final(self).capacity() == old(self).capacity(),
    {
        proof {
            use_type_invariant(&*self);
        }
        if self.items.len() == 0 {
            return Error::new(ErrorCode::NoError);
        }
        let mut items: Vec<Error> = Vec::new();
        core::mem::swap(&mut self.items, &mut items);
        let head = items.remove(0);
        proof {
            assert(items@ =~= old(self)@.drop_first());
        }
        core::mem::swap(&mut self.items, &mut items);
        head
    }

    /// The number of errors in the queue.
    pub fn num_errors(&self) -> (r: usize)
        ensures
            r == self@.len(),
    {
        proof {
            use_type_invariant(self);
        }
        self.items.len()
    }

    /// Empties the queue.
    pub fn clear_errors(&mut self)
        ensures
            final(self)@ == Seq::<Error>::empty(),
            final(self).capacity() == old(self).capacity(),
    {
        proof {
            use_type_invariant(&*self);
        }
        let mut items: Vec<Error> = Vec::new();
        core::mem::swap(&mut self.items, &mut items);
    }
}

/// The status of a device.
pub struct Status {
    /// Event status register.
    pub esr: u8,
    /// Event status enable register.
    pub ese: u8,
    /// Service request enable register.
    pub sre: u8,
    /// The OPERation register.
    pub operation: EventRegister,
    /// The QUEStionable register.
    pub questionable: EventRegister,
    /// The error queue.
    pub errors: ErrorQueue,
}

/// The registers of a status, without the error queue.
#[derive(Clone, Copy, Debug, PartialEq, Eq, Structural)]
pub struct Registers {
    pub esr: u8,
    pub ese: u8,
    pub sre: u8,
    pub operation: EventRegister,
    pub questionable: EventRegister,
}

/// The model of a status.
pub struct StatusView {
    pub registers: Registers,
    pub errors: Seq<Error>,
    pub capacity: nat,
}

impl StatusView {
    /// The status with another event status register.
    pub open spec fn with_esr(self, esr: u8) -> StatusView {
        StatusView { registers: Registers { esr, ..self.registers }, ..self }
    }

    /// The status with another event status enable register.
    pub open spec fn with_ese(self, ese: u8) -> StatusView {
        StatusView { registers: Registers { ese, ..self.registers }, ..self }
    }

    /// The status after the service request enable register has been set:
    /// bit 6 cannot be set.
    pub open spec fn with_sre(self, sre: u8) -> StatusView {
        StatusView { registers: Registers { sre: sre & !SRE_MASKED, ..self.registers }, ..self }
    }

    /// A status with every register cleared and an empty error queue.
    pub open spec fn zero(capacity: nat) -> StatusView {
        StatusView {
            registers: Registers {
                esr: 0,
                ese: 0,
                sre: 0,
                operation: EventRegister::zero(),
                questionable: EventRegister::zero(),
            },
            errors: Seq::empty(),
            capacity,
        }
    }

    /// The status byte, with the message-available bit as the transport
    /// gives it.
    pub open spec fn status_byte(self, mav: bool) -> u8 {
        (if self.registers.operation.enabled_events() != 0 {
            STB_OPERATION
        } else {
            0u8
        }) | (if self.registers.esr & self.registers.ese != 0 {
            STB_EVENT_STATUS
        } else {
            0u8
        }) | (if mav {
            STB_MESSAGE_AVAILABLE
        } else {
            0u8
        }) | (if self.registers.questionable.enabled_events() != 0 {
            STB_QUESTIONABLE
        } else {
            0u8
        }) | (if self.errors.len() > 0 {
            STB_ERROR_QUEUE
        } else {
            0u8
        })
    }

    /// The status after an error has been recorded: the bit of its class is
    /// set in the event status register, and the error is queued.
    pub open spec fn recorded(self, error: Error) -> StatusView {
        StatusView {
            errors: queue_pushed(self.errors, self.capacity, error),
            ..self.with_esr(self.registers.esr | error.code.class_mask())
        }
    }

    /// The status after *CLS: the event registers and the error queue are
    /// cleared, everything else is as it was.
    pub open spec fn cleared(self) -> StatusView {
        StatusView {
            registers: Registers {
                esr: 0,
                operation: self.registers.operation.with_event(0),
                questionable: self.registers.questionable.with_event(0),
                ..self.registers
            },
            errors: Seq::empty(),
            ..self
        }
    }

    /// The status after STATus:PRESet.
    pub open spec fn after_preset(self) -> StatusView {
        StatusView {
            registers: Registers {
                operation: self.registers.operation.after_preset(),
                questionable: self.registers.questionable.after_preset(),
                ..self.registers
            },
            ..self
        }
    }
}

impl View for Status {
    type V = StatusView;

    open spec fn view(&self) -> StatusView {
        StatusView {
            registers: Registers {
                esr: self.esr,
                ese: self.ese,
                sre: self.sre,
                operation: self.operation,
                questionable: self.questionable,
            },
            errors: self.errors@,
            capacity: self.errors.capacity(),
        }
    }
}

impl Status {
    /// A status with every register cleared and an empty error queue that
    /// holds up to `capacity` errors, and at least one.
    pub fn new(capacity: usize) -> (r: Self)
        ensures
            r@ == StatusView::zero(
                if capacity == 0 {
                    1
                } else {
                    capacity as nat
                },
            ),
    {
        Status {
            esr: 0,
            ese: 0,
            sre: 0,
            operation: EventRegister::new(),
            questionable: EventRegister::new(),
            errors: ErrorQueue::new(capacity),
        }
    }

    /// The error queue of a status has room for at least one error and
    /// holds no more errors than it has room for.
    pub proof fn lemma_queue_bounded(self)
        ensures
            1 <= self@.capacity,
            self@.errors.len() <= self@.capacity,
    {
        self.errors.lemma_bounded();
    }

    /// The event status register.
    pub fn esr(&self) -> (r: u8)
        ensures
            r == self.esr,
    {
        self.esr
    }

    /// Sets the event status register.
    pub fn set_esr(&mut self, value: u8)
        ensures
            final(self)@ == old(self)@.with_esr(value),
    {
        self.esr = value;
    }

    /// The event status enable register.
    pub fn ese(&self) -> (r: u8)
        ensures
            r == self.ese,
    {
        self.ese
    }

    /// Sets the event status enable register.
    pub fn set_ese(&mut self, value: u8)
        ensures
            final(self)@ == old(self)@.with_ese(value),
    {
        self.ese = value;
    }

    /// The service request enable register.
    pub fn sre(&self) -> (r: u8)
        ensures
            r == self.sre,
    {
        self.sre
    }

    /// Sets the service request enable register. Bit 6 cannot be set.
    pub fn set_sre(&mut self, value: u8)
        ensures
            final(self)@ == old(self)@.with_sre(value),
    {
        self.sre = value & !SRE_MASKED;
    }

    /// The enabled events of the OPERation register.
    pub fn oper_status(&self) -> (r: u16)
        ensures
            r == self.operation.enabled_events(),
    {
        self.operation.event & self.operation.enable & REGISTER_MASK
    }

    /// The enabled events of the QUEStionable register.
    pub fn ques_status(&self) -> (r: u16)
        ensures
            r == self.questionable.enabled_events(),
    {
        self.questionable.event & self.questionable.enable & REGISTER_MASK
    }

    /// The status byte, with the message-available bit as the transport
    /// gives it.
    pub fn read_stb(&self, mav: bool) -> (r: u8)
        ensures
            r == self@.status_byte(mav),
    {
        let operation: u8 = register_summary::<Operation>(self);
        let event_status: u8 = if self.esr & self.ese != 0 {
            STB_EVENT_STATUS
        } else {
            0
        };
        let available: u8 = if mav {
            STB_MESSAGE_AVAILABLE
        } else {
            0
        };
        let questionable: u8 = register_summary::<Questionable>(self);
        let queue: u8 = if self.errors.num_errors() > 0 {
            STB_ERROR_QUEUE
        } else {
            0
        };
        operation | event_status | available | questionable | queue
    }

    /// Records an error: sets the bit of its class in the event status
    /// register and puts it into the queue.
    pub fn handle_error(&mut self, error: Error)
        ensures
            final(self)@ == old(self)@.recorded(error),
    {
        self.esr = self.esr | error.esr_mask();
        self.errors.push_back_error(error);
    }

    /// Clears the event registers and the error queue.
    pub fn clear(&mut self)
        ensures
            final(self)@ == old(self)@.cleared(),
    {
        self.esr = 0;
        self.operation.clear_event();
        self.questionable.clear_event();
        self.errors.clear_errors();
    }

    /// Presets the enable masks and the transition filters of the SCPI
    /// registers.
    pub fn preset(&mut self)
        ensures
            final(self)@ == old(self)@.after_preset(),
    {
        self.operation.preset();
        self.questionable.preset();
    }
}

/// A name of an event register of the status.
pub trait EventRegisterName {
    /// The bit that summarises the register in the status byte.
    spec fn summary_bit() -> u8;

    /// The bit that summarises the register in the status byte.
    fn summary_mask() -> (r: u8)
        ensures
            r == Self::summary_bit(),
    ;
}

/// The QUEStionable register.
pub struct Questionable;

/// The OPERation register.
pub struct Operation;

impl EventRegisterName for Questionable {
    open spec fn summary_bit() -> u8 {
        STB_QUESTIONABLE
    }

    fn summary_mask() -> (r: u8) {
        STB_QUESTIONABLE
    }
}

impl EventRegisterName for Operation {
    open spec fn summary_bit() -> u8 {
        STB_OPERATION
    }

    fn summary_mask() -> (r: u8) {
        STB_OPERATION
    }
}

/// Access to the event register that `X` names.
pub trait GetEventRegister<X: EventRegisterName>: Sized {
    /// The register that `X` names.
    spec fn chosen(&self) -> EventRegister;

    /// The same value with another register in the place that `X` names.
    spec fn with_chosen(&self, register: EventRegister) -> Self;

    /// The register that `X` names.
    fn register(&self) -> (r: &EventRegister)
        ensures
            *r == self.chosen(),
    ;

    /// The register that `X` names, to be changed. Nothing else changes.
    fn register_mut(&mut self) -> (r: &mut EventRegister)
        ensures
            *r == old(self).chosen(),
            *final(self) == old(self).with_chosen(*final(r)),
    ;
}

impl GetEventRegister<Questionable> for Status {
    open spec fn chosen(&self) -> EventRegister {
        self.questionable
    }

    open spec fn with_chosen(&self, register: EventRegister) -> Self {
        Status { questionable: register, ..*self }
    }

    fn register(&self) -> (r: &EventRegister) {
        &self.questionable
    }

    fn register_mut(&mut self) -> (r: &mut EventRegister) {
        &mut self.questionable
    }
}

impl GetEventRegister<Operation> for Status {
    open spec fn chosen(&self) -> EventRegister {
        self.operation
    }

    open spec fn with_chosen(&self, register: EventRegister) -> Self {
        Status { operation: register, ..*self }
    }

    fn register(&self) -> (r: &EventRegister) {
        &self.operation
    }

    fn register_mut(&mut self) -> (r: &mut EventRegister) {
        &mut self.operation
    }
}

/// What the register that `T` names contributes to the status byte: its
/// summary bit where an enabled event is set, and nothing else.
pub open spec fn summary_of<T: EventRegisterName>(status: Status) -> u8 where
    Status: GetEventRegister<T>,
 {
    if <Status as GetEventRegister<T>>::chosen(&status).enabled_events() != 0 {
        T::summary_bit()
    } else {
        0
    }
}

/// The summary of the register that `T` names, as it stands in the status
/// byte.
pub fn register_summary<T: EventRegisterName>(status: &Status) -> (r: u8) where
    Status: GetEventRegister<T>,

    ensures
        r == summary_of::<T>(*status),
{
    if GetEventRegister::<T>::register(status).get_summary() {
        T::summary_mask()
    } else {
        0
    }
}

/// The status byte is made up of the summaries of the two event registers,
/// the summary of the event status register, the message-available bit and
/// the bit of the error queue.
pub proof fn lemma_status_byte(status: Status, mav: bool)
    ensures
        status@.status_byte(mav) == summary_of::<Operation>(status) | (if status.esr & status.ese
            != 0 {
            STB_EVENT_STATUS
        } else {
            0u8
        }) | (if mav {
            STB_MESSAGE_AVAILABLE
        } else {
            0u8
        }) | summary_of::<Questionable>(status) | (if status.errors@.len() > 0 {
            STB_ERROR_QUEUE
        } else {
            0u8
        }),
{
}

} // verus!
