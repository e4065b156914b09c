//! Session state: the register table, the pending-operation bookkeeping, the
//! run state and the request-id counter, and how responses and commands
//! change it.

use std::collections::HashMap;

use vstd::prelude::*;

use crate::command::{command_frame, encodable, encode_command, Command, CommandView};
use crate::error::EngineError;
use crate::register::{blank_register, Register, RegisterView};
use crate::response::{Response, ResponseView};

verus! {

broadcast use vstd::std_specs::hash::group_hash_axioms;

/// The largest request id a frame can carry.
pub const LAST_REQUEST_ID: u64 = 0xffff_ffff;

/// State of one connection to the monitor.
#[derive(Debug)]
pub struct Session {
    registers: HashMap<u8, Register>,
    resets_pending: u64,
    load_pending: bool,
    running: bool,
    program_counter: u16,
    next_request_id: u64,
}

/// A session as plain values.
pub struct SessionView {
    pub registers: Map<u8, RegisterView>,
    pub resets_pending: nat,
    pub load_pending: bool,
    pub running: bool,
    pub pc: u16,
    pub next_request_id: nat,
}

/// Every reset that is pending used up a request id, and the counter never
/// runs past the ids a frame can carry.
pub open spec fn session_inv(s: SessionView) -> bool {
    &&& s.resets_pending <= s.next_request_id
    &&& s.next_request_id <= LAST_REQUEST_ID + 1
}

/// A fresh session: no registers, nothing pending, running, first id 0.
pub open spec fn initial_session() -> SessionView {
    SessionView {
        registers: Map::empty(),
        resets_pending: 0,
        load_pending: false,
        running: true,
        pc: 0,
        next_request_id: 0,
    }
}

/// The register a response updates: the known one, or a blank one.
pub open spec fn known_or_blank(regs: Map<u8, RegisterView>, id: u8) -> RegisterView {
    if regs.contains_key(id) {
        regs[id]
    } else {
        blank_register()
    }
}

/// The register table after taking in new values.
pub open spec fn with_values(regs: Map<u8, RegisterView>, values: Map<u8, u16>) -> Map<
    u8,
    RegisterView,
> {
    Map::new(
        |id: u8| regs.contains_key(id) || values.contains_key(id),
        |id: u8|
            if values.contains_key(id) {
                RegisterView { value: values[id], ..known_or_blank(regs, id) }
            } else {
                regs[id]
            },
    )
}

/// The register table after taking in names and sizes.
pub open spec fn with_descriptions(
    regs: Map<u8, RegisterView>,
    descriptions: Map<u8, (u8, Seq<char>)>,
) -> Map<u8, RegisterView> {
    Map::new(
        |id: u8| regs.contains_key(id) || descriptions.contains_key(id),
        |id: u8|
            if descriptions.contains_key(id) {
                RegisterView {
                    name: descriptions[id].1,
                    size: descriptions[id].0,
                    ..known_or_blank(regs, id)
                }
            } else {
                regs[id]
            },
    )
}

/// The session after a response arrives.
pub open spec fn apply_response(s: SessionView, r: ResponseView) -> SessionView {
    match r {
        ResponseView::RegistersGet { values } => SessionView {
            registers: with_values(s.registers, values),
            ..s
        },
        ResponseView::RegistersAvailable { descriptions } => SessionView {
            registers: with_descriptions(s.registers, descriptions),
            ..s
        },
        ResponseView::Stopped { pc } => SessionView { running: false, pc, ..s },
        ResponseView::Resumed { pc } => SessionView { running: true, pc, ..s },
        ResponseView::Reset => SessionView {
            resets_pending: if s.resets_pending > 0 {
                (s.resets_pending - 1) as nat
            } else {
                0
            },
            ..s
        },
        ResponseView::Load => SessionView { load_pending: false, ..s },
        _ => s,
    }
}

/// The session after a command is handed out, and the frame that carries it
/// or the reason it cannot be sent. The command gets the next request id; a
/// reset counts as pending and a load marks a load pending at once.
pub open spec fn prepare_command(s: SessionView, c: CommandView) -> (SessionView, Result<
    Seq<u8>,
    EngineError,
>) {
    if s.next_request_id > LAST_REQUEST_ID {
        (s, Err(EngineError::RequestIdsExhausted))
    } else if !encodable(c) {
        (s, Err(EngineError::Encoding))
    } else {
        let s1 = SessionView { next_request_id: s.next_request_id + 1, ..s };
        let s2 = match c {
            CommandView::Reset => SessionView { resets_pending: s.resets_pending + 1, ..s1 },
            CommandView::Load { .. } => SessionView { load_pending: true, ..s1 },
            _ => s1,
        };
        (s2, Ok(command_frame(c, s.next_request_id as u32)))
    }
}

/// Taking in the values of ids up to `id` adds at most the one register `id`
/// to what taking in the values of the smaller ids gave.
proof fn lemma_values_step(regs: Map<u8, RegisterView>, values: Map<u8, u16>, id: u8)
    ensures
        ({
            let below = with_values(regs, values.restrict(Set::new(|k: u8| k < id)));
            let upto = with_values(regs, values.restrict(Set::new(|k: u8| k <= id)));
            if values.contains_key(id) {
                upto == below.insert(
                    id,
                    RegisterView { value: values[id], ..known_or_blank(below, id) },
                )
            } else {
                upto == below
            }
        }),
{
    let below = with_values(regs, values.restrict(Set::new(|k: u8| k < id)));
    let upto = with_values(regs, values.restrict(Set::new(|k: u8| k <= id)));
    if values.contains_key(id) {
        assert(upto =~= below.insert(
            id,
            RegisterView { value: values[id], ..known_or_blank(below, id) },
        ));
    } else {
        assert(upto =~= below);
    }
}

/// Taking in the descriptions of ids up to `id` adds at most the one register
/// `id` to what taking in the descriptions of the smaller ids gave.
proof fn lemma_descriptions_step(
    regs: Map<u8, RegisterView>,
    descriptions: Map<u8, (u8, Seq<char>)>,
    id: u8,
)
    ensures
        ({
            let below = with_descriptions(regs, descriptions.restrict(Set::new(|k: u8| k < id)));
            let upto = with_descriptions(regs, descriptions.restrict(Set::new(|k: u8| k <= id)));
            if descriptions.contains_key(id) {
                upto == below.insert(
                    id,
                    RegisterView {
                        name: descriptions[id].1,
                        size: descriptions[id].0,
                        ..known_or_blank(below, id)
                    },
                )
            } else {
                upto == below
            }
        }),
{
    let below = with_descriptions(regs, descriptions.restrict(Set::new(|k: u8| k < id)));
    let upto = with_descriptions(regs, descriptions.restrict(Set::new(|k: u8| k <= id)));
    if descriptions.contains_key(id) {
        assert(upto =~= below.insert(
            id,
            RegisterView {
                name: descriptions[id].1,
                size: descriptions[id].0,
                ..known_or_blank(below, id)
            },
        ));
    } else {
        assert(upto =~= below);
    }
}

/// Takes the register `id` out of the table, or a blank one.
fn take_register(regs: &mut HashMap<u8, Register>, id: u8) -> (r: Register)
    ensures
        r@ == known_or_blank(table_view(old(regs)@), id),
        final(regs)@ == old(regs)@.remove(id),
{
    match regs.remove(&id) {
        Some(reg) => reg,
        None => Register::default(),
    }
}

fn apply_values(regs: &mut HashMap<u8, Register>, values: &HashMap<u8, u16>)
    ensures
        table_view(final(regs)@) == with_values(table_view(old(regs)@), values@),
{
    let ghost start = table_view(regs@);
    let mut i: u16 = 0;
    assert(with_values(start, values@.restrict(Set::new(|id: u8| id < 0)))
        =~= start);
    while i < 256
        invariant
            i <= 256,
            table_view(regs@) == with_values(
                start,
                values@.restrict(Set::new(|id: u8| id < i)),
            ),
        decreases 256 - i,
    {
        let id = i as u8;
        let ghost before = table_view(regs@);
        proof {
            lemma_values_step(start, values@, id);
        }
        match values.get(&id) {
            Some(v) => {
                let mut reg = take_register(regs, id);
                reg.set_value(*v);
                regs.insert(id, reg);
                assert(table_view(regs@) =~= before.insert(id, reg@));
            },
            None => {},
        }
        i = i + 1;
        assert(Set::new(|k: u8| k < i) =~= Set::new(|k: u8| k <= id));
    }
    assert(values@.restrict(Set::new(|id: u8| id < 256)) =~= values@);
}

fn apply_descriptions(regs: &mut HashMap<u8, Register>, descriptions: &HashMap<u8, (u8, String)>)
    ensures
        table_view(final(regs)@) == with_descriptions(
            table_view(old(regs)@),
            crate::response::descriptions_view(descriptions@),
        ),
{
    let ghost start = table_view(regs@);
    let ghost all = crate::response::descriptions_view(descriptions@);
    let mut i: u16 = 0;
    assert(with_descriptions(start, all.restrict(Set::new(|id: u8| id < 0)))
        =~= start);
    while i < 256
        invariant
            i <= 256,
            all == crate::response::descriptions_view(descriptions@),
            table_view(regs@) == with_descriptions(
                start,
                all.restrict(Set::new(|id: u8| id < i)),
            ),
        decreases 256 - i,
    {
        let id = i as u8;
        let ghost before = table_view(regs@);
        proof {
            lemma_descriptions_step(start, all, id);
        }
        match descriptions.get(&id) {
            Some(d) => {
                let mut reg = take_register(regs, id);
                reg.set_name(d.1.as_str());
                reg.set_size(d.0);
                regs.insert(id, reg);
                assert(table_view(regs@) =~= before.insert(id, reg@));
            },
            None => {},
        }
        i = i + 1;
        assert(Set::new(|k: u8| k < i) =~= Set::new(|k: u8| k <= id));
    }
    assert(all.restrict(Set::new(|id: u8| id < 256)) =~= all);
}

/// A register table as plain values.
pub open spec fn table_view(m: Map<u8, Register>) -> Map<u8, RegisterView> {
    Map::new(|id: u8| m.contains_key(id), |id: u8| m[id]@)
}

impl View for Session {
    type V = SessionView;

    closed spec fn view(&self) -> SessionView {
        SessionView {
            registers: table_view(self.registers@),
            resets_pending: self.resets_pending as nat,
            load_pending: self.load_pending,
            running: self.running,
            pc: self.program_counter,
            next_request_id: self.next_request_id as nat,
        }
    }
}

impl Session {
    #[verifier::type_invariant]
    spec fn well_formed(&self) -> bool {
        session_inv(self@)
    }

    pub fn new() -> (r: Session)
        ensures
            r@ == initial_session(),
    {
        let r = Session {
            registers: HashMap::new(),
            resets_pending: 0,
            load_pending: false,
            running: true,
            program_counter: 0,
            next_request_id: 0,
        };
        assert(r@.registers =~= Map::empty());
        r
    }

    /// True while at least one reset has been sent and not yet acknowledged.
    pub fn is_reset_pending(&self) -> (r: bool)
        ensures
            r == (self@.resets_pending > 0),
    {
        self.resets_pending > 0
    }

    pub fn is_load_pending(&self) -> (r: bool)
        ensures
            r == self@.load_pending,
    {
        self.load_pending
    }

    pub fn resets_pending(&self) -> (r: u64)
        ensures
            r == self@.resets_pending,
    {
        self.resets_pending
    }

    pub fn is_running(&self) -> (r: bool)
        ensures
            r == self@.running,
    {
        self.running
    }

    pub fn program_counter(&self) -> (r: u16)
        ensures
            r == self@.pc,
    {
        self.program_counter
    }

    /// The request id the next command will carry.
    pub fn next_request_id(&self) -> (r: u64)
        ensures
            r == self@.next_request_id,
    {
        self.next_request_id
    }

    /// The register with id `id`, if any response has mentioned it.
    pub fn register(&self, id: u8) -> (r: Option<&Register>)
        ensures
            match r {
                Some(reg) => self@.registers.contains_key(id) && reg@ == self@.registers[id],
                None => !self@.registers.contains_key(id),
            },
    {
        self.registers.get(&id)
    }

    /// Gives `cmd` the next request id, records what it leaves pending, and
    /// returns the frame that carries it. On failure nothing changes.
    pub fn prepare(&mut self, cmd: &Command) -> (r: Result<Vec<u8>, EngineError>)
        ensures
            final(self)@ == prepare_command(old(self)@, cmd@).0,
            match r {
                Ok(frame) => prepare_command(old(self)@, cmd@).1 == Ok::<Seq<u8>, EngineError>(
                    frame@,
                ),
                Err(e) => prepare_command(old(self)@, cmd@).1 == Err::<Seq<u8>, EngineError>(e),
            },
    {
        proof {
            use_type_invariant(&*self);
        }
        if self.next_request_id > LAST_REQUEST_ID {
            return Err(EngineError::RequestIdsExhausted);
        }
        let id = self.next_request_id as u32;
        let frame = match encode_command(cmd, id) {
            Ok(frame) => frame,
            Err(e) => {
                return Err(e);
            },
        };
        self.next_request_id = self.next_request_id + 1;
        match cmd {
            Command::Reset => {
                self.resets_pending = self.resets_pending + 1;
            },
            Command::Load { .. } => {
                self.load_pending = true;
            },
            _ => {},
        }
        Ok(frame)
    }

    /// Applies a response to the session.
    pub fn apply(&mut self, response: &Response)
        ensures
            final(self)@ == apply_response(old(self)@, response@),
    {
        proof {
            use_type_invariant(&*self);
        }
        match response {
            Response::RegistersGet { values } => {
                let mut regs: HashMap<u8, Register> = HashMap::new();
                std::mem::swap(&mut regs, &mut self.registers);
                apply_values(&mut regs, values);
                std::mem::swap(&mut regs, &mut self.registers);
            },
            Response::RegistersAvailable { descriptions } => {
                let mut regs: HashMap<u8, Register> = HashMap::new();
                std::mem::swap(&mut regs, &mut self.registers);
                apply_descriptions(&mut regs, descriptions);
                std::mem::swap(&mut regs, &mut self.registers);
            },
            Response::Stopped { pc } => {
                self.running = false;
                self.program_counter = *pc;
            },
            Response::Resumed { pc } => {
                self.running = true;
                self.program_counter = *pc;
            },
            Response::Reset => {
                if self.resets_pending > 0 {
                    self.resets_pending = self.resets_pending - 1;
                }
            },
            Response::Load => {
                self.load_pending = false;
            },
            _ => {},
        }
    }
}

} // verus!
