//! Building a Mermaid sequence diagram in which participants are created by
//! a root participant `I0`, exchange messages, and are destroyed again.

use vstd::prelude::*;
use crate::text::{decimal, push_decimal, push_str};

verus! {

/// The first lines of every diagram.
pub open spec fn header() -> Seq<char> {
    "sequenceDiagram\n    create participant I0 as root\n    autonumber\n"@
}

pub open spec fn id_text(i: int) -> Seq<char> {
    "I"@ + decimal(i as nat)
}

/// The lines that create participant `i` named `name`.
pub open spec fn create_lines(i: int, name: Seq<char>) -> Seq<char> {
    "    create participant "@ + id_text(i) + " as "@ + name + "\n    I0-->>"@ + id_text(i) + ": create\n"@
}

/// The line of a message from participant `from` to participant `to`.
pub open spec fn arrow_line(from: int, to: int, text: Seq<char>) -> Seq<char> {
    "    "@ + id_text(from) + "->>"@ + id_text(to) + ": "@ + text + "\n"@
}

/// The lines that destroy participant `i`.
pub open spec fn destroy_lines(i: int) -> Seq<char> {
    "    destroy "@ + id_text(i) + "\n    "@ + id_text(i) + "-->>I0: destroy\n"@
}

/// A diagram under construction: its text so far and the number of
/// participants created so far.
pub struct Canvas {
    contents: String,
    i: i32,
}

/// A participant of a diagram; it must be destroyed on the canvas that
/// created it once it is no longer used.
pub struct Participant {
    i: i32,
    _name: String,
}

impl Participant {
    #[verifier::type_invariant]
    spec fn positive(self) -> bool {
        self.i > 0
    }

    /// The number of the participant in the diagram (`I1`, `I2`, ...).
    pub closed spec fn index(&self) -> int {
        self.i as int
    }

    /// Appends a message from this participant to `rhs`.
    pub fn add_arrow_to(&self, canvas: &mut Canvas, rhs: &Participant, text: &str)
        ensures
            final(canvas).text() == old(canvas).text() + arrow_line(self.index(), rhs.index(), text@),
            final(canvas).count() == old(canvas).count(),
    {
        proof {
            use_type_invariant(self);
            use_type_invariant(rhs);
        }
        let mut line = String::new();
        push_str(&mut line, "    I");
        push_decimal(&mut line, self.i as u64);
        push_str(&mut line, "->>I");
        push_decimal(&mut line, rhs.i as u64);
        push_str(&mut line, ": ");
        push_str(&mut line, text);
        push_str(&mut line, "\n");
        proof {
            reveal_strlit("I");
            reveal_strlit("    I");
            reveal_strlit("    ");
            reveal_strlit("->>I");
            reveal_strlit("->>");
            assert(line@ =~= arrow_line(self.index(), rhs.index(), text@));
        }
        canvas.append(line.as_str());
    }

    /// Ends the participant: appends the lines that destroy it.
    pub fn destroy(self, canvas: &mut Canvas)
        ensures
            final(canvas).text() == old(canvas).text() + destroy_lines(self.index()),
            final(canvas).count() == old(canvas).count(),
    {
        proof {
            use_type_invariant(&self);
        }
        let mut line = String::new();
        push_str(&mut line, "    destroy I");
        push_decimal(&mut line, self.i as u64);
        push_str(&mut line, "\n    I");
        push_decimal(&mut line, self.i as u64);
        push_str(&mut line, "-->>I0: destroy\n");
        proof {
            reveal_strlit("I");
            reveal_strlit("    destroy I");
            reveal_strlit("    destroy ");
            reveal_strlit("\n    I");
            reveal_strlit("\n    ");
            assert(line@ =~= destroy_lines(self.index()));
        }
        canvas.append(line.as_str());
    }
}

impl Canvas {
    /// The text of the diagram so far.
    pub closed spec fn text(&self) -> Seq<char> {
        self.contents@
    }

    /// The number of participants created so far.
    pub closed spec fn count(&self) -> int {
        self.i as int
    }

    /// A diagram with only the root participant `I0`.
    pub fn new() -> (c: Self)
        ensures
            c.text() == header(),
            c.count() == 0,
    {
        Self {
            contents: String::from_str("sequenceDiagram\n    create participant I0 as root\n    autonumber\n"),
            i: 0,
        }
    }

    /// Creates the next participant, named `s`, and appends the lines that
    /// create it.
    pub fn new_participant(&mut self, s: &str) -> (p: Participant)
        requires
            0 <= old(self).count() < i32::MAX,
        ensures
            p.index() == old(self).count() + 1,
            final(self).count() == old(self).count() + 1,
            final(self).text() == old(self).text() + create_lines(p.index(), s@),
    {
        self.i = self.i + 1;
        let i = self.i;
        let mut lines = String::new();
        push_str(&mut lines, "    create participant I");
        push_decimal(&mut lines, i as u64);
        push_str(&mut lines, " as ");
        push_str(&mut lines, s);
        push_str(&mut lines, "\n    I0-->>I");
        push_decimal(&mut lines, i as u64);
        push_str(&mut lines, ": create\n");
        proof {
            reveal_strlit("I");
            reveal_strlit("    create participant I");
            reveal_strlit("    create participant ");
            reveal_strlit("\n    I0-->>I");
            reveal_strlit("\n    I0-->>");
            assert(lines@ =~= create_lines(i as int, s@));
        }
        self.append(lines.as_str());
        Participant { i, _name: String::from_str(s) }
    }

    fn append(&mut self, s: &str)
        ensures
            final(self).text() == old(self).text() + s@,
            final(self).count() == old(self).count(),
    {
        push_str(&mut self.contents, s);
    }

    /// Hands the text of the diagram to `f`.
    pub fn output<F: FnOnce(&String)>(&self, f: F)
        requires
            forall|s: &String| f.requires((s,)),
        ensures
            exists|s: &String| s@ == self.text() && f.ensures((s,), ()),
    {
        let c = &self.contents;
        f(c);
        assert(c@ == self.text() && f.ensures((c,), ()));
    }

    /// The text of the diagram.
    pub fn contents(&self) -> (s: &String)
        ensures
            s@ == self.text(),
    {
        &self.contents
    }
}

} // verus!
