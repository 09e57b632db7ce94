//! The capability through which the engine reaches the flash controller.

use vstd::prelude::*;

verus! {

/// One access to the flash controller: a register read with the value it
/// returned, a register write, or a program write to the flash array.
#[derive(Clone, Copy, Debug, PartialEq, Eq, Structural)]
pub enum Access {
    /// The busy flag was read.
    BusyRead { busy: bool },
    /// The status register was read.
    StatusRead { bits: u32 },
    /// The lock bit was read.
    LockRead { locked: bool },
    /// The end-of-operation interrupt was enabled.
    CompletionInterruptEnable,
    /// All status flags were cleared.
    StatusClear,
    /// A key was written to the key register.
    KeyWrite { key: u32 },
    /// The lock bit was set.
    Lock,
    /// Page-erase mode was switched on or off.
    PageErase { enable: bool },
    /// A bank was selected for the next page operation.
    BankSelect { bank: u8 },
    /// The page to erase was selected, by its number within the selected
    /// bank and by its address.
    PageSelect { page: u32, address: u32 },
    /// The selected page's erase was started.
    EraseStart,
    /// Programming mode was switched on or off.
    ProgramEnable { enable: bool },
    /// One chunk was written to the flash array.
    Program { address: u32, chunk: u64 },
    /// One byte of the flash array was read.
    MemoryRead { address: u32, value: u8 },
}

/// The named fields of a flash controller that the engine touches, with the
/// history of what was done through them.
///
/// `accesses` is the history of all accesses made through the handle, oldest
/// first; every method makes one access and adds it. What a read returns is
/// up to the controller.
pub trait FlashRegisters: Sized {
    /// Every access made through this handle so far, oldest first.
    spec fn accesses(&self) -> Seq<Access>;

    /// Reads the flag that says an erase or program operation is in progress.
    fn is_busy(&mut self) -> (busy: bool)
        ensures
            final(self).accesses() == old(self).accesses().push(Access::BusyRead { busy }),
    ;

    /// Reads the status register.
    fn read_status(&mut self) -> (bits: u32)
        ensures
            final(self).accesses() == old(self).accesses().push(Access::StatusRead { bits }),
    ;

    /// Reads the lock bit of the control register.
    fn is_locked(&mut self) -> (locked: bool)
        ensures
            final(self).accesses() == old(self).accesses().push(Access::LockRead { locked }),
    ;

    /// Enables the interrupt that signals the end of an operation.
    fn enable_completion_interrupt(&mut self)
        ensures
            final(self).accesses() == old(self).accesses().push(Access::CompletionInterruptEnable),
    ;

    /// Clears every flag of the status register.
    fn clear_status(&mut self)
        ensures
            final(self).accesses() == old(self).accesses().push(Access::StatusClear),
    ;

    /// Writes one key of the unlock sequence to the key register.
    fn write_key(&mut self, key: u32)
        ensures
            final(self).accesses() == old(self).accesses().push(Access::KeyWrite { key }),
    ;

    /// Sets the lock bit of the control register.
    fn set_lock(&mut self)
        ensures
            final(self).accesses() == old(self).accesses().push(Access::Lock),
    ;

    /// Switches page-erase mode on or off.
    fn set_page_erase(&mut self, enable: bool)
        ensures
            final(self).accesses() == old(self).accesses().push(Access::PageErase { enable }),
    ;

    /// Selects the bank that the next page operation works on.
    fn select_bank(&mut self, bank: u8)
        ensures
            final(self).accesses() == old(self).accesses().push(Access::BankSelect { bank }),
    ;

    /// Selects the page to erase. `page` is its number within the selected
    /// bank and `address` an address inside it; a controller takes whichever
    /// of the two its registers hold.
    fn select_page(&mut self, page: u32, address: u32)
        ensures
            final(self).accesses() == old(self).accesses().push(
                Access::PageSelect { page, address },
            ),
    ;

    /// Starts the erase of the selected page.
    fn start_erase(&mut self)
        ensures
            final(self).accesses() == old(self).accesses().push(Access::EraseStart),
    ;

    /// Switches programming mode on or off.
    fn set_program(&mut self, enable: bool)
        ensures
            final(self).accesses() == old(self).accesses().push(Access::ProgramEnable { enable }),
    ;

    /// Writes one chunk to the flash array at `address`. The chunk's least
    /// significant byte goes to the lowest address.
    fn program(&mut self, address: u32, chunk: u64)
        ensures
            final(self).accesses() == old(self).accesses().push(
                Access::Program { address, chunk },
            ),
    ;

    /// Reads one byte of the flash array.
    fn read_byte(&mut self, address: u32) -> (value: u8)
        ensures
            final(self).accesses() == old(self).accesses().push(
                Access::MemoryRead { address, value },
            ),
    ;
}

/// A flash controller as a device exposes it: the same named fields as
/// `FlashRegisters`, without a history. Nothing is known of what a call
/// returns or does; `Recorded` keeps the history of the calls made.
pub trait FlashController: Sized {
    /// Reads the flag that says an erase or program operation is in progress.
    fn is_busy(&mut self) -> bool;

    /// Reads the status register.
    fn read_status(&mut self) -> u32;

    /// Reads the lock bit of the control register.
    fn is_locked(&mut self) -> bool;

    /// Enables the interrupt that signals the end of an operation.
    fn enable_completion_interrupt(&mut self);

    /// Clears every flag of the status register.
    fn clear_status(&mut self);

    /// Writes one key of the unlock sequence to the key register.
    fn write_key(&mut self, key: u32);

    /// Sets the lock bit of the control register.
    fn set_lock(&mut self);

    /// Switches page-erase mode on or off.
    fn set_page_erase(&mut self, enable: bool);

    /// Selects the bank that the next page operation works on.
    fn select_bank(&mut self, bank: u8);

    /// Selects the page to erase, by its number within the selected bank
    /// and by an address inside it.
    fn select_page(&mut self, page: u32, address: u32);

    /// Starts the erase of the selected page.
    fn start_erase(&mut self);

    /// Switches programming mode on or off.
    fn set_program(&mut self, enable: bool);

    /// Writes one chunk to the flash array at `address`, least significant
    /// byte at the lowest address.
    fn program(&mut self, address: u32, chunk: u64);

    /// Reads one byte of the flash array.
    fn read_byte(&mut self, address: u32) -> u8;
}

/// A flash controller together with the history of the accesses made to it.
/// Each method makes the one call of its name on the controller and adds the
/// access to the history.
pub struct Recorded<C: FlashController> {
    controller: C,
    history: Ghost<Seq<Access>>,
}

impl<C: FlashController> Recorded<C> {
    /// Takes the controller, with an empty history.
    pub fn new(controller: C) -> (recorded: Recorded<C>)
        ensures
            recorded.accesses() == Seq::<Access>::empty(),
    {
        Recorded { controller, history: Ghost(Seq::empty()) }
    }

    /// The controller.
    pub closed spec fn controller(&self) -> C {
        self.controller
    }

    /// Gives the controller back.
    pub fn release(self) -> (controller: C)
        ensures
            controller == self.controller(),
    {
        self.controller
    }
}

impl<C: FlashController> FlashRegisters for Recorded<C> {
    closed spec fn accesses(&self) -> Seq<Access> {
        self.history@
    }

    fn is_busy(&mut self) -> (busy: bool) {
        let busy = self.controller.is_busy();
        self.history = Ghost(self.history@.push(Access::BusyRead { busy }));
        busy
    }

    fn read_status(&mut self) -> (bits: u32) {
        let bits = self.controller.read_status();
        self.history = Ghost(self.history@.push(Access::StatusRead { bits }));
        bits
    }

    fn is_locked(&mut self) -> (locked: bool) {
        let locked = self.controller.is_locked();
        self.history = Ghost(self.history@.push(Access::LockRead { locked }));
        locked
    }

    fn enable_completion_interrupt(&mut self) {
        self.controller.enable_completion_interrupt();
        self.history = Ghost(self.history@.push(Access::CompletionInterruptEnable));
    }

    fn clear_status(&mut self) {
        self.controller.clear_status();
        self.history = Ghost(self.history@.push(Access::StatusClear));
    }

    fn write_key(&mut self, key: u32) {
        self.controller.write_key(key);
        self.history = Ghost(self.history@.push(Access::KeyWrite { key }));
    }

    fn set_lock(&mut self) {
        self.controller.set_lock();
        self.history = Ghost(self.history@.push(Access::Lock));
    }

    fn set_page_erase(&mut self, enable: bool) {
        self.controller.set_page_erase(enable);
        self.history = Ghost(self.history@.push(Access::PageErase { enable }));
    }

    fn select_bank(&mut self, bank: u8) {
        self.controller.select_bank(bank);
        self.history = Ghost(self.history@.push(Access::BankSelect { bank }));
    }

    fn select_page(&mut self, page: u32, address: u32) {
        self.controller.select_page(page, address);
        self.history = Ghost(self.history@.push(Access::PageSelect { page, address }));
    }

    fn start_erase(&mut self) {
        self.controller.start_erase();
        self.history = Ghost(self.history@.push(Access::EraseStart));
    }

    fn set_program(&mut self, enable: bool) {
        self.controller.set_program(enable);
        self.history = Ghost(self.history@.push(Access::ProgramEnable { enable }));
    }

    fn program(&mut self, address: u32, chunk: u64) {
        self.controller.program(address, chunk);
        self.history = Ghost(self.history@.push(Access::Program { address, chunk }));
    }

    fn read_byte(&mut self, address: u32) -> (value: u8) {
        let value = self.controller.read_byte(address);
        self.history = Ghost(self.history@.push(Access::MemoryRead { address, value }));
        value
    }
}

} // verus!
