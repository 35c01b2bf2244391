//! Commands to run, as lists of arguments.

use vstd::prelude::*;
use vstd::slice::slice_subrange;
use vstd::string::*;

use crate::text::{contains, contains_str, join, joined, strs, texts};

verus! {

/// A command: its program and arguments, and whether its failure is tolerated.
pub type Command = (Seq<Seq<char>>, bool);

/// A single command to run: `.0` is the argv, `.1` says whether a non-zero exit is tolerated.
///
/// Tolerated failures exist for the "delete stale copy" steps: on a first install there is
/// nothing to delete, and the tools report that as an error, which must not abort the batch that
/// is about to install the certificate.
#[derive(Debug, PartialEq, Eq)]
pub struct Argv(pub Vec<String>, pub bool);

impl View for Argv {
    type V = Command;

    open spec fn view(&self) -> Command {
        (texts(self.0@), self.1)
    }
}

/// The commands that a list holds.
pub open spec fn command_seq(v: Seq<Argv>) -> Seq<Command> {
    v.map_values(|a: Argv| a@)
}

/// How a part of a command is displayed: between quotation marks where it holds a space.
pub open spec fn shown(part: Seq<char>) -> Seq<char> {
    if contains(part, " "@) {
        seq!['"'] + part + seq!['"']
    } else {
        part
    }
}

/// Strings with the given texts.
fn owned(parts: &[&str]) -> (r: Vec<String>)
    ensures
        texts(r@) == strs(parts@),
{
    let mut r: Vec<String> = Vec::new();
    let mut i: usize = 0;
    while i < parts.len()
        invariant
            i <= parts@.len(),
            r@.len() == i,
            forall|j: int| 0 <= j < i ==> (#[trigger] r@[j])@ == parts@[j]@,
        decreases parts@.len() - i,
    {
        r.push(parts[i].to_string());
        i += 1;
    }
    assert(texts(r@) =~= strs(parts@));
    r
}

impl Argv {
    /// A command that must succeed.
    pub fn new(parts: &[&str]) -> (r: Self)
        ensures
            r@ == (strs(parts@), false),
    {
        Argv(owned(parts), false)
    }

    /// A command whose failure is not a failure of the batch.
    pub fn optional(parts: &[&str]) -> (r: Self)
        ensures
            r@ == (strs(parts@), true),
    {
        Argv(owned(parts), true)
    }

    /// The program to run, empty where there is none.
    pub fn program(&self) -> (r: &str)
        ensures
            r@ == if self@.0.len() > 0 {
                self@.0[0]
            } else {
                seq![]
            },
    {
        if self.0.len() > 0 {
            self.0[0].as_str()
        } else {
            proof {
                reveal_strlit("");
                assert(""@ =~= Seq::empty());
            }
            ""
        }
    }

    /// The arguments of the program.
    pub fn args(&self) -> (r: &[String])
        ensures
            texts(r@) == if self@.0.len() > 0 {
                self@.0.skip(1)
            } else {
                seq![]
            },
    {
        let n: usize = self.0.len();
        if n > 0 {
            let r = slice_subrange(self.0.as_slice(), 1, n);
            assert(texts(r@) =~= self@.0.skip(1));
            r
        } else {
            let r = slice_subrange(self.0.as_slice(), 0, 0);
            assert(texts(r@) =~= seq![]);
            r
        }
    }

    /// The command as a user would type it, for logs and error messages. A part containing a
    /// space is quoted, so `.../Application Support/...` reads as one argument rather than two.
    pub fn display(&self) -> (r: String)
        ensures
            r@ == join(self@.0.map_values(|p: Seq<char>| shown(p)), " "@),
    {
        let mut parts: Vec<String> = Vec::new();
        let mut i: usize = 0;
        while i < self.0.len()
            invariant
                i <= self.0@.len(),
                parts@.len() == i,
                forall|j: int| 0 <= j < i ==> (#[trigger] parts@[j])@ == shown(self.0@[j]@),
            decreases self.0@.len() - i,
        {
            let part = self.0[i].as_str();
            if contains_str(part, " ") {
                let mut quoted = String::new();
                quoted.push('"');
                quoted.push_str(part);
                quoted.push('"');
                assert(quoted@ =~= shown(part@));
                parts.push(quoted);
            } else {
                parts.push(part.to_string());
            }
            i += 1;
        }
        assert(texts(parts@) =~= self@.0.map_values(|p: Seq<char>| shown(p)));
        joined(parts.as_slice(), " ")
    }
}

/// A command is run as it was given: its first part is the program, and the others its arguments, in
/// order; and it may fail only where that was said.
pub proof fn law_commands_are_run_as_given(
    parts: &[&str],
    must: Argv,
    may: Argv,
)
    requires
        call_ensures(Argv::new, (parts,), must),
        call_ensures(Argv::optional, (parts,), may),
    ensures
        texts(must.0@) == strs(parts@),
        texts(may.0@) == strs(parts@),
        !must.1,
        may.1,
        forall|program: &str|
            parts@.len() > 0 && #[trigger] call_ensures(Argv::program, (&must,), program)
                ==> program@ == parts@[0]@,
        forall|args: &[String]|
            parts@.len() > 0 && #[trigger] call_ensures(Argv::args, (&must,), args) ==> texts(
                args@,
            ) == strs(parts@).skip(1),
{
}

/// What is shown of a command tells its parts apart: one that holds a space stands between quotation
/// marks, and every other as it is, with a space between each two.
pub proof fn law_shown_parts_can_be_told_apart(argv: &Argv, r: String)
    requires
        call_ensures(Argv::display, (argv,), r),
        forall|i: int| 0 <= i < argv.0@.len() ==> !(#[trigger] argv.0@[i])@.contains(' '),
        argv.0@.len() > 0,
    ensures
        crate::text::split_on(r@, ' ') == texts(argv.0@),
        forall|p: Seq<char>|
            p.contains(' ') ==> #[trigger] shown(p) == seq!['"'] + p + seq!['"'],
{
    reveal_strlit(" ");
    assert(" "@ =~= seq![' ']);
    let all = texts(argv.0@);
    assert forall|p: Seq<char>| p.contains(' ') == #[trigger] contains(p, " "@) by {
        if p.contains(' ') {
            let i = choose|i: int| 0 <= i < p.len() && p[i] == ' ';
            assert(p.subrange(i, i + 1) =~= seq![' ']);
            assert(crate::text::occurs_at(p, " "@, i));
        }
        if contains(p, " "@) {
            let i = choose|i: int| crate::text::occurs_at(p, " "@, i);
            assert(p.subrange(i, i + 1)[0] == ' ');
        }
    }
    assert(all.map_values(|p: Seq<char>| shown(p)) =~= all) by {
        assert forall|i: int| 0 <= i < all.len() implies shown(#[trigger] all[i]) == all[i] by {
            assert(all[i] == argv.0@[i]@);
            assert(!contains(all[i], " "@));
        }
    }
    assert forall|i: int| 0 <= i < all.len() implies !(#[trigger] all[i]).contains(' ') by {
        assert(all[i] == argv.0@[i]@);
    }
    crate::text::law_joined_texts_split_back(all, ' ');
    assert forall|p: Seq<char>| p.contains(' ') implies #[trigger] shown(p) == seq!['"'] + p
        + seq!['"'] by {
        assert(contains(p, " "@));
    }
}

} // verus!
