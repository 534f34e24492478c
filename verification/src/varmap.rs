//! Per-instance attachment map.
//!
//! The pipeline sticks auxiliary data to requests, responses and
//! connections without widening their shapes.  Instead of keying by
//! runtime type identity, the map is a sealed set of slots, one per
//! attachment kind actually used: at most one value per kind, exact
//! lookups.

use vstd::prelude::*;
use crate::color::Color;

verus! {

/// One attached value.
#[derive(Clone, Debug)]
pub enum Attachment {
    /// Clock reading taken when a frame arrived, in microseconds.
    ArrivalMicros(u64),
    /// Identity of the task serving the connection.
    TaskId(u64),
    /// Decorative color taken from a frame tail.
    Color(Color),
    /// Name negotiated by a successful handshake.
    UserName(String),
    /// Free-form note.
    Note(String),
}

/// The slot an attachment lives in.
#[derive(Clone, Copy, Debug, PartialEq, Eq, Structural)]
pub enum AttachmentKey {
    ArrivalMicros,
    TaskId,
    Color,
    UserName,
    Note,
}

impl Attachment {
    /// The slot this value belongs to.
    pub open spec fn spec_key(&self) -> AttachmentKey {
        match self {
            Attachment::ArrivalMicros(_) => AttachmentKey::ArrivalMicros,
            Attachment::TaskId(_) => AttachmentKey::TaskId,
            Attachment::Color(_) => AttachmentKey::Color,
            Attachment::UserName(_) => AttachmentKey::UserName,
            Attachment::Note(_) => AttachmentKey::Note,
        }
    }

    pub fn key(&self) -> (k: AttachmentKey)
        ensures
            k == self.spec_key(),
    {
        match self {
            Attachment::ArrivalMicros(_) => AttachmentKey::ArrivalMicros,
            Attachment::TaskId(_) => AttachmentKey::TaskId,
            Attachment::Color(_) => AttachmentKey::Color,
            Attachment::UserName(_) => AttachmentKey::UserName,
            Attachment::Note(_) => AttachmentKey::Note,
        }
    }
}

/// Two attachments carry the same content: equal values, with strings
/// compared by their characters.
pub open spec fn attachment_view_eq(a: Attachment, b: Attachment) -> bool {
    match (a, b) {
        (Attachment::UserName(x), Attachment::UserName(y)) => x@ == y@,
        (Attachment::Note(x), Attachment::Note(y)) => x@ == y@,
        _ => a == b,
    }
}

/// Attachment map: one optional value per kind.
#[derive(Clone, Debug)]
pub struct Varmap {
    pub arrival_micros: Option<u64>,
    pub task_id: Option<u64>,
    pub color: Option<Color>,
    pub user_name: Option<String>,
    pub note: Option<String>,
}

impl Varmap {
    /// What the map holds in a given slot.
    pub open spec fn spec_get(&self, key: AttachmentKey) -> Option<Attachment> {
        match key {
            AttachmentKey::ArrivalMicros => match self.arrival_micros {
                Some(u) => Some(Attachment::ArrivalMicros(u)),
                None => None,
            },
            AttachmentKey::TaskId => match self.task_id {
                Some(u) => Some(Attachment::TaskId(u)),
                None => None,
            },
            AttachmentKey::Color => match self.color {
                Some(c) => Some(Attachment::Color(c)),
                None => None,
            },
            AttachmentKey::UserName => match self.user_name {
                Some(ref s) => Some(Attachment::UserName(*s)),
                None => None,
            },
            AttachmentKey::Note => match self.note {
                Some(ref s) => Some(Attachment::Note(*s)),
                None => None,
            },
        }
    }

    /// The negotiated user name, as a character sequence.
    pub open spec fn spec_user_name(&self) -> Option<Seq<char>> {
        match self.user_name {
            Some(ref s) => Some(s@),
            None => None,
        }
    }

    /// The attached color, if any.
    pub open spec fn spec_color(&self) -> Option<Color> {
        self.color
    }

    /// The attached task identity, if any.
    pub open spec fn spec_task_id(&self) -> Option<u64> {
        self.task_id
    }

    /// The attached arrival clock reading, if any.
    pub open spec fn spec_arrival_micros(&self) -> Option<u64> {
        self.arrival_micros
    }

    /// The attached note, as a character sequence.
    pub open spec fn spec_note(&self) -> Option<Seq<char>> {
        match self.note {
            Some(ref s) => Some(s@),
            None => None,
        }
    }

    pub fn new() -> (m: Varmap)
        ensures
            forall|k: AttachmentKey| m.spec_get(k) is None,
    {
        Varmap { arrival_micros: None, task_id: None, color: None, user_name: None, note: None }
    }

    /// Puts a value in its slot, displacing whatever the slot held.
    pub fn insert(&mut self, value: Attachment)
        ensures
            final(self).spec_get(value.spec_key()) == Some(value),
            forall|k: AttachmentKey|
                k != value.spec_key() ==> final(self).spec_get(k) == old(self).spec_get(k),
    {
        match value {
            Attachment::ArrivalMicros(u) => {
                self.arrival_micros = Some(u);
            },
            Attachment::TaskId(u) => {
                self.task_id = Some(u);
            },
            Attachment::Color(c) => {
                self.color = Some(c);
            },
            Attachment::UserName(s) => {
                self.user_name = Some(s);
            },
            Attachment::Note(s) => {
                self.note = Some(s);
            },
        }
    }

    /// Looks a slot up; the value comes out as a copy.
    pub fn get(&self, key: AttachmentKey) -> (r: Option<Attachment>)
        ensures
            match (r, self.spec_get(key)) {
                (Some(a), Some(b)) => attachment_view_eq(a, b),
                (None, None) => true,
                _ => false,
            },
    {
        match key {
            AttachmentKey::ArrivalMicros => match self.arrival_micros {
                Some(u) => Some(Attachment::ArrivalMicros(u)),
                None => None,
            },
            AttachmentKey::TaskId => match self.task_id {
                Some(u) => Some(Attachment::TaskId(u)),
                None => None,
            },
            AttachmentKey::Color => match self.color {
                Some(c) => Some(Attachment::Color(c)),
                None => None,
            },
            AttachmentKey::UserName => match &self.user_name {
                Some(s) => {
                    let c = s.clone();
                    proof {
                        assert(c@ == s@);
                    }
                    Some(Attachment::UserName(c))
                },
                None => None,
            },
            AttachmentKey::Note => match &self.note {
                Some(s) => {
                    let c = s.clone();
                    Some(Attachment::Note(c))
                },
                None => None,
            },
        }
    }

    /// Empties a slot.
    pub fn remove(&mut self, key: AttachmentKey)
        ensures
            final(self).spec_get(key) is None,
            forall|k: AttachmentKey| k != key ==> final(self).spec_get(k) == old(self).spec_get(k),
    {
        match key {
            AttachmentKey::ArrivalMicros => {
                self.arrival_micros = None;
            },
            AttachmentKey::TaskId => {
                self.task_id = None;
            },
            AttachmentKey::Color => {
                self.color = None;
            },
            AttachmentKey::UserName => {
                self.user_name = None;
            },
            AttachmentKey::Note => {
                self.note = None;
            },
        }
    }
}

} // verus!
