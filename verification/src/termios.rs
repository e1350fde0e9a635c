//! The attributes of the terminal, and the session that owns them: it keeps
//! what they were when it began, derives the raw mode from that, and hands
//! them back once, when it ends.
//!
//! The session never touches the terminal. The program queries and installs
//! attributes and tells the session how that went.

use vstd::prelude::*;

verus! {

/// The attributes of a terminal, as the system hands them out.
pub struct TerminalAttributes {
    pub input_flags: u32,
    pub output_flags: u32,
    pub control_flags: u32,
    pub local_flags: u32,
    pub line: u8,
    pub control_chars: Vec<u8>,
    pub input_speed: u32,
    pub output_speed: u32,
}

/// The attributes of a terminal, byte for byte.
pub struct AttributeValues {
    pub input_flags: u32,
    pub output_flags: u32,
    pub control_flags: u32,
    pub local_flags: u32,
    pub line: u8,
    pub control_chars: Seq<u8>,
    pub input_speed: u32,
    pub output_speed: u32,
}

impl View for TerminalAttributes {
    type V = AttributeValues;

    open spec fn view(&self) -> AttributeValues {
        AttributeValues {
            input_flags: self.input_flags,
            output_flags: self.output_flags,
            control_flags: self.control_flags,
            local_flags: self.local_flags,
            line: self.line,
            control_chars: self.control_chars@,
            input_speed: self.input_speed,
            output_speed: self.output_speed,
        }
    }
}

/// Where the platform keeps what the raw mode changes: the local flags for
/// canonical line processing, for echo and for the generation of signals, and
/// the places among the control characters of the least number of bytes that
/// a read waits for and of the time that it waits.
pub struct TerminalLayout {
    pub canonical: u32,
    pub echo: u32,
    pub signals: u32,
    pub min_index: usize,
    pub time_index: usize,
}

/// The terminal could not be queried, or refused the attributes.
#[derive(Debug, PartialEq, Eq)]
pub struct TerminalError;

/// Whether the layout names two places that the attributes have.
pub open spec fn fits(attributes: AttributeValues, layout: TerminalLayout) -> bool {
    &&& layout.min_index < attributes.control_chars.len()
    &&& layout.time_index < attributes.control_chars.len()
    &&& layout.min_index != layout.time_index
}

/// The raw variant of the attributes: no canonical line processing, no echo,
/// no signals, and a read that returns as soon as one byte is there. All else
/// stays.
pub open spec fn raw_variant(attributes: AttributeValues, layout: TerminalLayout) -> AttributeValues {
    AttributeValues {
        local_flags: attributes.local_flags & !(layout.canonical | layout.echo | layout.signals),
        control_chars: attributes.control_chars.update(layout.min_index as int, 1u8).update(
            layout.time_index as int,
            0u8,
        ),
        ..attributes
    }
}

impl TerminalAttributes {
    /// A copy, byte for byte.
    pub fn duplicate(&self) -> (copy: Self)
        ensures
            copy@ == self@,
    {
        let mut control_chars: Vec<u8> = Vec::new();
        for i in 0..self.control_chars.len()
            invariant
                control_chars@ == self.control_chars@.take(i as int),
        {
            control_chars.push(self.control_chars[i]);
            assert(self.control_chars@.take(i + 1) =~= self.control_chars@.take(i as int).push(
                self.control_chars@[i as int],
            ));
        }
        assert(self.control_chars@.take(self.control_chars@.len() as int)
            =~= self.control_chars@);
        TerminalAttributes {
            input_flags: self.input_flags,
            output_flags: self.output_flags,
            control_flags: self.control_flags,
            local_flags: self.local_flags,
            line: self.line,
            control_chars,
            input_speed: self.input_speed,
            output_speed: self.output_speed,
        }
    }

    /// The raw variant of these attributes, where the layout fits them.
    pub fn to_raw(&self, layout: &TerminalLayout) -> (raw: Option<Self>)
        ensures
            raw is Some <==> fits(self@, *layout),
            raw matches Some(r) ==> r@ == raw_variant(self@, *layout),
    {
        let len = self.control_chars.len();
        if layout.min_index >= len || layout.time_index >= len || layout.min_index
            == layout.time_index {
            return None;
        }
        let mut raw = self.duplicate();
        raw.local_flags = raw.local_flags & !(layout.canonical | layout.echo | layout.signals);
        raw.control_chars.set(layout.min_index, 1);
        raw.control_chars.set(layout.time_index, 0);
        Some(raw)
    }
}

/// A session on the terminal. It holds the attributes that the terminal had
/// when the session began, for as long as it lasts.
pub struct TermiosContext {
    initial_context: TerminalAttributes,
    raw: bool,
    restored: bool,
}

impl TermiosContext {
    /// The attributes that were captured when the session began.
    pub closed spec fn initial(&self) -> AttributeValues {
        self.initial_context@
    }

    /// Whether the raw mode is in force.
    pub closed spec fn raw(&self) -> bool {
        self.raw
    }

    /// Whether the session has handed the captured attributes back.
    pub closed spec fn restored(&self) -> bool {
        self.restored
    }

    /// Whether `self` is the session `before` a step later: it holds the same
    /// snapshot, and has handed it back exactly if `before` had.
    pub open spec fn follows(&self, before: &Self) -> bool {
        self.initial() == before.initial() && self.restored() == before.restored()
    }

    /// What the end of the session hands back to be installed: the snapshot,
    /// unless it was handed back before.
    pub open spec fn owed(&self) -> Option<AttributeValues> {
        if self.restored() {
            None
        } else {
            Some(self.initial())
        }
    }

    /// Begins a session with what the query of the terminal gave: its
    /// attributes, or `None` where it could not be queried.
    pub fn new(queried: Option<TerminalAttributes>) -> (session: Result<Self, TerminalError>)
        ensures
            session is Ok <==> queried is Some,
            session matches Ok(s) ==> s.initial() == queried->0@ && !s.raw() && !s.restored(),
    {
        match queried {
            Some(attributes) => Ok(
                TermiosContext { initial_context: attributes, raw: false, restored: false },
            ),
            None => Err(TerminalError),
        }
    }

    /// A copy of the attributes that were captured when the session began.
    pub fn get_initial(&self) -> (attributes: TerminalAttributes)
        ensures
            attributes@ == self.initial(),
    {
        self.initial_context.duplicate()
    }

    /// The attributes to install for the raw mode, derived from the snapshot.
    /// There are none while the raw mode is in force, after the session has
    /// ended, or where the layout does not fit.
    pub fn enter_raw_mode(&self, layout: &TerminalLayout) -> (attributes: Result<
        TerminalAttributes,
        TerminalError,
    >)
        ensures
            attributes is Ok <==> !self.raw() && !self.restored() && fits(self.initial(), *layout),
            attributes matches Ok(a) ==> a@ == raw_variant(self.initial(), *layout),
    {
        if self.raw || self.restored {
            return Err(TerminalError);
        }
        match self.initial_context.to_raw(layout) {
            Some(raw) => Ok(raw),
            None => Err(TerminalError),
        }
    }

    /// Takes what the terminal answered when the attributes of the raw mode
    /// were installed: zero where it accepted them. The raw mode is in force
    /// from then on; any other answer is an error and changes nothing.
    pub fn set(&mut self, reply: i32) -> (accepted: Result<(), TerminalError>)
        ensures
            final(self).follows(old(self)),
            accepted is Ok <==> reply == 0 && !old(self).raw() && !old(self).restored(),
            final(self).raw() == (old(self).raw() || accepted is Ok),
    {
        if reply != 0 || self.raw || self.restored {
            return Err(TerminalError);
        }
        self.raw = true;
        Ok(())
    }

    /// Ends the session: hands back the snapshot to be installed, the first
    /// time, and nothing after that.
    pub fn restore(&mut self) -> (attributes: Option<TerminalAttributes>)
        ensures
            final(self).initial() == old(self).initial(),
            final(self).restored(),
            !final(self).raw(),
            attributes is Some <==> old(self).owed() is Some,
            attributes matches Some(a) ==> Some(a@) == old(self).owed(),
    {
        self.raw = false;
        if self.restored {
            return None;
        }
        self.restored = true;
        Some(self.initial_context.duplicate())
    }

    /// Entering the raw mode and leaving it gives the terminal back the very
    /// attributes that were captured when the session began: whatever steps
    /// lie between the beginning and the end, the session owes the snapshot
    /// it began with.
    pub proof fn lemma_round_trip(opened: &Self, entered: &Self, active: &Self)
        requires
            !opened.restored(),
            entered.follows(opened),
            active.follows(entered),
        ensures
            active.owed() == Some(opened.initial()),
    {
    }
}

} // verus!
