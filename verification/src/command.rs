//! The POP3 verb set: a closed variant type over the commands the
//! engine can issue, its canonical textual rendering, and the inverse
//! parse used to state the render/parse round trip.

use vstd::prelude::*;
use crate::digits::{dec_digits, digits_val, is_digit, parse_digits, u64_to_dec};
use crate::frame::{CR, LF, SP};
use crate::scan::{find_byte, group_end, lemma_find_byte, lemma_group_end, spec_find_byte};

verus! {

/// A POP3 command, carrying only the arguments its verb requires.
#[derive(Clone, Debug)]
pub enum PopCommand {
    Greet,
    User(Vec<u8>),
    Pass(Vec<u8>),
    Stat,
    UidlAll,
    UidlOne,
    ListAll,
    ListOne,
    Retr(u64),
    Dele(u64),
    Noop,
    Rset,
    Quit,
}

/// The mathematical shape of a command: arguments as plain sequences
/// and numbers.
pub enum CommandModel {
    Greet,
    User(Seq<u8>),
    Pass(Seq<u8>),
    Stat,
    UidlAll,
    UidlOne,
    ListAll,
    ListOne,
    Retr(u64),
    Dele(u64),
    Noop,
    Rset,
    Quit,
}

impl View for PopCommand {
    type V = CommandModel;

    open spec fn view(&self) -> CommandModel {
        match self {
            PopCommand::Greet => CommandModel::Greet,
            PopCommand::User(s) => CommandModel::User(s@),
            PopCommand::Pass(s) => CommandModel::Pass(s@),
            PopCommand::Stat => CommandModel::Stat,
            PopCommand::UidlAll => CommandModel::UidlAll,
            PopCommand::UidlOne => CommandModel::UidlOne,
            PopCommand::ListAll => CommandModel::ListAll,
            PopCommand::ListOne => CommandModel::ListOne,
            PopCommand::Retr(i) => CommandModel::Retr(*i),
            PopCommand::Dele(i) => CommandModel::Dele(*i),
            PopCommand::Noop => CommandModel::Noop,
            PopCommand::Rset => CommandModel::Rset,
            PopCommand::Quit => CommandModel::Quit,
        }
    }
}

pub open spec fn verb_greet() -> Seq<u8> {
    seq![71u8, 82, 69, 69, 84]  // GREET
}

pub open spec fn verb_user() -> Seq<u8> {
    seq![85u8, 83, 69, 82]  // USER
}

pub open spec fn verb_pass() -> Seq<u8> {
    seq![80u8, 65, 83, 83]  // PASS
}

pub open spec fn verb_stat() -> Seq<u8> {
    seq![83u8, 84, 65, 84]  // STAT
}

pub open spec fn verb_uidl_all() -> Seq<u8> {
    seq![85u8, 73, 68, 76, 65, 76, 76]  // UIDLALL
}

pub open spec fn verb_uidl_one() -> Seq<u8> {
    seq![85u8, 73, 68, 76, 79, 78, 69]  // UIDLONE
}

pub open spec fn verb_list_all() -> Seq<u8> {
    seq![76u8, 73, 83, 84, 65, 76, 76]  // LISTALL
}

pub open spec fn verb_list_one() -> Seq<u8> {
    seq![76u8, 73, 83, 84, 79, 78, 69]  // LISTONE
}

pub open spec fn verb_retr() -> Seq<u8> {
    seq![82u8, 69, 84, 82]  // RETR
}

pub open spec fn verb_dele() -> Seq<u8> {
    seq![68u8, 69, 76, 69]  // DELE
}

pub open spec fn verb_noop() -> Seq<u8> {
    seq![78u8, 79, 79, 80]  // NOOP
}

pub open spec fn verb_rset() -> Seq<u8> {
    seq![82u8, 83, 69, 84]  // RSET
}

pub open spec fn verb_quit() -> Seq<u8> {
    seq![81u8, 85, 73, 84]  // QUIT
}

/// The canonical command line: the verb, then one space and the
/// argument for the verbs that carry one.
pub open spec fn spec_render(c: CommandModel) -> Seq<u8> {
    match c {
        CommandModel::Greet => verb_greet(),
        CommandModel::User(s) => verb_user() + seq![SP] + s,
        CommandModel::Pass(s) => verb_pass() + seq![SP] + s,
        CommandModel::Stat => verb_stat(),
        CommandModel::UidlAll => verb_uidl_all(),
        CommandModel::UidlOne => verb_uidl_one(),
        CommandModel::ListAll => verb_list_all(),
        CommandModel::ListOne => verb_list_one(),
        CommandModel::Retr(i) => verb_retr() + seq![SP] + dec_digits(i as nat),
        CommandModel::Dele(i) => verb_dele() + seq![SP] + dec_digits(i as nat),
        CommandModel::Noop => verb_noop(),
        CommandModel::Rset => verb_rset(),
        CommandModel::Quit => verb_quit(),
    }
}

/// A nonempty, all-digit byte run.
pub open spec fn is_digit_run(t: Seq<u8>) -> bool {
    t.len() > 0 && forall|i: int| 0 <= i < t.len() ==> is_digit(#[trigger] t[i])
}

/// Read a command line back into its verb and argument: the inverse
/// of `spec_render`.  The verb is the text before the first space;
/// verbs without an argument must stand alone, and numeric arguments
/// must be digit runs whose value fits in 64 bits.
pub open spec fn spec_parse_command(s: Seq<u8>) -> Option<CommandModel> {
    match spec_find_byte(s, 0, SP) {
        None => if s == verb_greet() {
            Some(CommandModel::Greet)
        } else if s == verb_stat() {
            Some(CommandModel::Stat)
        } else if s == verb_uidl_all() {
            Some(CommandModel::UidlAll)
        } else if s == verb_uidl_one() {
            Some(CommandModel::UidlOne)
        } else if s == verb_list_all() {
            Some(CommandModel::ListAll)
        } else if s == verb_list_one() {
            Some(CommandModel::ListOne)
        } else if s == verb_noop() {
            Some(CommandModel::Noop)
        } else if s == verb_rset() {
            Some(CommandModel::Rset)
        } else if s == verb_quit() {
            Some(CommandModel::Quit)
        } else {
            None
        },
        Some(k) => {
            let verb = s.subrange(0, k);
            let arg = s.subrange(k + 1, s.len() as int);
            if verb == verb_user() {
                Some(CommandModel::User(arg))
            } else if verb == verb_pass() {
                Some(CommandModel::Pass(arg))
            } else if verb == verb_retr() {
                if is_digit_run(arg) && digits_val(arg) <= u64::MAX {
                    Some(CommandModel::Retr(digits_val(arg) as u64))
                } else {
                    None
                }
            } else if verb == verb_dele() {
                if is_digit_run(arg) && digits_val(arg) <= u64::MAX {
                    Some(CommandModel::Dele(digits_val(arg) as u64))
                } else {
                    None
                }
            } else {
                None
            }
        },
    }
}

/// Append all of `s` to `out`.
fn push_all(out: &mut Vec<u8>, s: &Vec<u8>)
    ensures
        final(out)@ == old(out)@ + s@,
{
    let mut i: usize = 0;
    while i < s.len()
        invariant
            i <= s@.len(),
            out@ == old(out)@ + s@.subrange(0, i as int),
        decreases s@.len() - i,
    {
        let ghost pre = out@;
        out.push(s[i]);
        proof {
            assert(pre.push(s@[i as int]) =~= old(out)@ + s@.subrange(0, i as int + 1));
        }
        i = i + 1;
    }
    assert(s@.subrange(0, s@.len() as int) =~= s@);
}

impl PopCommand {
    /// Render this command as its canonical line, without the CRLF
    /// terminator.
    pub fn render(&self) -> (r: Vec<u8>)
        ensures
            r@ == spec_render(self@),
    {
        match self {
            PopCommand::Greet => {
                let v = vec![71u8, 82, 69, 69, 84];
                assert(v@ =~= verb_greet());
                v
            },
            PopCommand::User(s) => {
                let mut v = vec![85u8, 83, 69, 82, 32];
                assert(v@ =~= verb_user() + seq![SP]);
                push_all(&mut v, s);
                v
            },
            PopCommand::Pass(s) => {
                let mut v = vec![80u8, 65, 83, 83, 32];
                assert(v@ =~= verb_pass() + seq![SP]);
                push_all(&mut v, s);
                v
            },
            PopCommand::Stat => {
                let v = vec![83u8, 84, 65, 84];
                assert(v@ =~= verb_stat());
                v
            },
            PopCommand::UidlAll => {
                let v = vec![85u8, 73, 68, 76, 65, 76, 76];
                assert(v@ =~= verb_uidl_all());
                v
            },
            PopCommand::UidlOne => {
                let v = vec![85u8, 73, 68, 76, 79, 78, 69];
                assert(v@ =~= verb_uidl_one());
                v
            },
            PopCommand::ListAll => {
                let v = vec![76u8, 73, 83, 84, 65, 76, 76];
                assert(v@ =~= verb_list_all());
                v
            },
            PopCommand::ListOne => {
                let v = vec![76u8, 73, 83, 84, 79, 78, 69];
                assert(v@ =~= verb_list_one());
                v
            },
            PopCommand::Retr(i) => {
                let mut v = vec![82u8, 69, 84, 82, 32];
                assert(v@ =~= verb_retr() + seq![SP]);
                let d = u64_to_dec(*i);
                push_all(&mut v, &d);
                v
            },
            PopCommand::Dele(i) => {
                let mut v = vec![68u8, 69, 76, 69, 32];
                assert(v@ =~= verb_dele() + seq![SP]);
                let d = u64_to_dec(*i);
                push_all(&mut v, &d);
                v
            },
            PopCommand::Noop => {
                let v = vec![78u8, 79, 79, 80];
                assert(v@ =~= verb_noop());
                v
            },
            PopCommand::Rset => {
                let v = vec![82u8, 83, 69, 84];
                assert(v@ =~= verb_rset());
                v
            },
            PopCommand::Quit => {
                let v = vec![81u8, 85, 73, 84];
                assert(v@ =~= verb_quit());
                v
            },
        }
    }

    /// Render this command as the full outgoing wire line, CRLF
    /// terminator included.
    pub fn wire_line(&self) -> (r: Vec<u8>)
        ensures
            r@ == spec_render(self@) + seq![CR, LF],
    {
        let mut v = self.render();
        let ghost body = v@;
        v.push(CR);
        v.push(LF);
        proof {
            assert(v@ =~= body + seq![CR, LF]);
        }
        v
    }
}

/// Do two byte vectors hold the same bytes?
fn vec_eq(a: &Vec<u8>, b: &Vec<u8>) -> (r: bool)
    ensures
        r <==> a@ == b@,
{
    if a.len() != b.len() {
        return false;
    }
    let mut i: usize = 0;
    while i < a.len()
        invariant
            i <= a@.len(),
            a@.len() == b@.len(),
            forall|k: int| 0 <= k < i ==> a@[k] == b@[k],
        decreases a@.len() - i,
    {
        if a[i] != b[i] {
            return false;
        }
        i = i + 1;
    }
    proof {
        assert(a@ =~= b@);
    }
    true
}

/// Copy `a[from..to]` into a fresh vector.
fn sub_vec(a: &Vec<u8>, from: usize, to: usize) -> (r: Vec<u8>)
    requires
        from <= to <= a@.len(),
    ensures
        r@ == a@.subrange(from as int, to as int),
{
    let mut out: Vec<u8> = Vec::new();
    let mut i: usize = from;
    while i < to
        invariant
            from <= i <= to <= a@.len(),
            out@ =~= a@.subrange(from as int, i as int),
        decreases to - i,
    {
        out.push(a[i]);
        i = i + 1;
    }
    out
}

/// Parse a command line back into the command it renders: the
/// executable counterpart of `spec_parse_command`.
pub fn parse_command(line: &Vec<u8>) -> (r: Option<PopCommand>)
    ensures
        match r {
            Some(c) => spec_parse_command(line@) == Some(c@),
            None => spec_parse_command(line@) is None,
        },
{
    proof {
        lemma_find_byte(line@, 0, SP);
    }
    match find_byte(line, 0, SP) {
        None => {
            if vec_eq(line, &vec![71u8, 82, 69, 69, 84]) {
                assert(line@ == verb_greet());
                Some(PopCommand::Greet)
            } else if vec_eq(line, &vec![83u8, 84, 65, 84]) {
                assert(line@ == verb_stat());
                Some(PopCommand::Stat)
            } else if vec_eq(line, &vec![85u8, 73, 68, 76, 65, 76, 76]) {
                assert(line@ == verb_uidl_all());
                Some(PopCommand::UidlAll)
            } else if vec_eq(line, &vec![85u8, 73, 68, 76, 79, 78, 69]) {
                assert(line@ == verb_uidl_one());
                Some(PopCommand::UidlOne)
            } else if vec_eq(line, &vec![76u8, 73, 83, 84, 65, 76, 76]) {
                assert(line@ == verb_list_all());
                Some(PopCommand::ListAll)
            } else if vec_eq(line, &vec![76u8, 73, 83, 84, 79, 78, 69]) {
                assert(line@ == verb_list_one());
                Some(PopCommand::ListOne)
            } else if vec_eq(line, &vec![78u8, 79, 79, 80]) {
                assert(line@ == verb_noop());
                Some(PopCommand::Noop)
            } else if vec_eq(line, &vec![82u8, 83, 69, 84]) {
                assert(line@ == verb_rset());
                Some(PopCommand::Rset)
            } else if vec_eq(line, &vec![81u8, 85, 73, 84]) {
                assert(line@ == verb_quit());
                Some(PopCommand::Quit)
            } else {
                None
            }
        },
        Some(k) => {
            let n = line.len();
            assert(k < n);
            let verb = sub_vec(line, 0, k);
            let arg = sub_vec(line, k + 1, n);
            if vec_eq(&verb, &vec![85u8, 83, 69, 82]) {
                assert(verb@ == verb_user());
                Some(PopCommand::User(arg))
            } else if vec_eq(&verb, &vec![80u8, 65, 83, 83]) {
                assert(verb@ == verb_pass());
                Some(PopCommand::Pass(arg))
            } else if vec_eq(&verb, &vec![82u8, 69, 84, 82]) {
                assert(verb@ == verb_retr());
                match parse_digit_arg(&arg) {
                    Some(v) => Some(PopCommand::Retr(v)),
                    None => None,
                }
            } else if vec_eq(&verb, &vec![68u8, 69, 76, 69]) {
                assert(verb@ == verb_dele());
                match parse_digit_arg(&arg) {
                    Some(v) => Some(PopCommand::Dele(v)),
                    None => None,
                }
            } else {
                None
            }
        },
    }
}

/// Read an all-digit argument as a `u64`, rejecting empty or
/// non-digit text and values that do not fit.
fn parse_digit_arg(arg: &Vec<u8>) -> (r: Option<u64>)
    ensures
        match r {
            Some(v) => is_digit_run(arg@) && digits_val(arg@) == v,
            None => !(is_digit_run(arg@) && digits_val(arg@) <= u64::MAX),
        },
{
    if arg.len() == 0 {
        return None;
    }
    proof {
        lemma_group_end(arg@, 0);
    }
    let e = group_end(arg, 0);
    if e != arg.len() {
        assert(!is_digit(arg@[e as int]));
        return None;
    }
    assert(arg@.subrange(0, arg@.len() as int) =~= arg@);
    parse_digits(arg, 0, e)
}

} // verus!
