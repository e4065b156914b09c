//! A register of the remote machine as the session has seen it so far.

use vstd::prelude::*;

verus! {

/// Name, last known value and size in bits of one register.
#[derive(Debug)]
pub struct Register {
    name: String,
    value: u16,
    size: u8,
}

/// A register as plain values.
pub struct RegisterView {
    pub name: Seq<char>,
    pub value: u16,
    pub size: u8,
}

/// The register a session starts from when a response first mentions an id.
pub open spec fn blank_register() -> RegisterView {
    RegisterView { name: Seq::empty(), value: 0, size: 0 }
}

impl View for Register {
    type V = RegisterView;

    closed spec fn view(&self) -> RegisterView {
        RegisterView { name: self.name@, value: self.value, size: self.size }
    }
}

impl Default for Register {
    fn default() -> (r: Register)
        ensures
            r@ == blank_register(),
    {
        let r = Register { name: String::new(), value: 0, size: 0 };
        assert(r@.name =~= Seq::<char>::empty());
        r
    }
}

impl Register {
    pub fn set_name(&mut self, name: &str)
        ensures
            final(self)@ == (RegisterView { name: name@, ..old(self)@ }),
    {
        self.name = name.to_owned();
    }

    pub fn set_value(&mut self, value: u16)
        ensures
            final(self)@ == (RegisterView { value, ..old(self)@ }),
    {
        self.value = value;
    }

    pub fn set_size(&mut self, size: u8)
        ensures
            final(self)@ == (RegisterView { size, ..old(self)@ }),
    {
        self.size = size;
    }

    pub fn name(&self) -> (r: &str)
        ensures
            r@ == self@.name,
    {
        self.name.as_str()
    }

    pub fn value(&self) -> (r: u16)
        ensures
            r == self@.value,
    {
        self.value
    }

    pub fn size(&self) -> (r: u8)
        ensures
            r == self@.size,
    {
        self.size
    }
}

} // verus!
