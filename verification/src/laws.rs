//! Laws relating the engine's pieces to one another: the rendering
//! of a command is exactly the line its parser re-derives the command
//! from, and a well-formed numeric reply always parses to the numbers
//! it was rendered from.

use vstd::prelude::*;
use crate::command::{
    spec_parse_command, spec_render, verb_dele, verb_pass, verb_retr, verb_user, CommandModel,
    PopCommand,
};
use crate::digits::{
    dec_digits, digits_val, is_digit, lemma_dec_digits_are_digits, lemma_digits_val_dec_digits,
};
use crate::frame::{
    line_next, line_ok, line_text, resp_line_ok, resp_line_success, resp_line_text,
    resp_text_start, status_next, CR, LF, PLUS, SP, UPPER_K, UPPER_O,
};
use crate::parse::spec_parse_two;
use crate::scan::{
    lemma_find_byte_at, lemma_find_byte_none, lemma_find_digit_at, lemma_group_end_at,
    spec_find_byte,
};

verus! {

/// `t` holds no line feed, so it can stand as the content of one
/// wire line.
pub open spec fn no_lf(t: Seq<u8>) -> bool {
    forall|i: int| 0 <= i < t.len() ==> #[trigger] t[i] != LF
}

/// The arguments a command carries hold no line feed.  Rendered
/// verbs and digits never do; only the free-text arguments of USER
/// and PASS could.
pub open spec fn args_line_clean(c: CommandModel) -> bool {
    match c {
        CommandModel::User(s) => no_lf(s),
        CommandModel::Pass(s) => no_lf(s),
        _ => true,
    }
}

/// A verb followed by a space and an argument splits back into that
/// verb and that argument at the first space.
proof fn lemma_split_with_arg(verb: Seq<u8>, arg: Seq<u8>)
    requires
        verb.len() >= 1,
        forall|i: int| 0 <= i < verb.len() ==> #[trigger] verb[i] != SP,
    ensures
        ({
            let w = verb + seq![SP] + arg;
            &&& spec_find_byte(w, 0, SP) == Some(verb.len() as int)
            &&& w.subrange(0, verb.len() as int) == verb
            &&& w.subrange(verb.len() as int + 1, w.len() as int) == arg
        }),
{
    let w = verb + seq![SP] + arg;
    assert(w[verb.len() as int] == SP);
    assert(forall|k: int| 0 <= k < verb.len() ==> w[k] == verb[k]);
    lemma_find_byte_at(w, 0, SP, verb.len() as int);
    assert(w.subrange(0, verb.len() as int) =~= verb);
    assert(w.subrange(verb.len() as int + 1, w.len() as int) =~= arg);
}

/// A digit run splits back into its value.
proof fn lemma_digit_arg(arg: Seq<u8>, v: u64)
    requires
        arg == dec_digits(v as nat),
    ensures
        arg.len() > 0,
        forall|i: int| 0 <= i < arg.len() ==> is_digit(#[trigger] arg[i]),
        digits_val(arg) == v,
{
    lemma_dec_digits_are_digits(v as nat);
    lemma_digits_val_dec_digits(v as nat);
}

/// Round trip: the line a command renders parses back to exactly
/// that command, for every command.
pub proof fn lemma_command_round_trip(c: PopCommand)
    ensures
        spec_parse_command(spec_render(c@)) == Some(c@),
{
    let w = spec_render(c@);
    match c {
        PopCommand::Greet => {
            lemma_find_byte_none(w, 0, SP);
        },
        PopCommand::User(s) => {
            lemma_split_with_arg(verb_user(), s@);
        },
        PopCommand::Pass(s) => {
            lemma_split_with_arg(verb_pass(), s@);
        },
        PopCommand::Stat => {
            lemma_find_byte_none(w, 0, SP);
        },
        PopCommand::UidlAll => {
            lemma_find_byte_none(w, 0, SP);
        },
        PopCommand::UidlOne => {
            lemma_find_byte_none(w, 0, SP);
        },
        PopCommand::ListAll => {
            lemma_find_byte_none(w, 0, SP);
        },
        PopCommand::ListOne => {
            lemma_find_byte_none(w, 0, SP);
        },
        PopCommand::Retr(i) => {
            lemma_split_with_arg(verb_retr(), dec_digits(i as nat));
            lemma_digit_arg(dec_digits(i as nat), i);
        },
        PopCommand::Dele(i) => {
            lemma_split_with_arg(verb_dele(), dec_digits(i as nat));
            lemma_digit_arg(dec_digits(i as nat), i);
        },
        PopCommand::Noop => {
            lemma_find_byte_none(w, 0, SP);
        },
        PopCommand::Rset => {
            lemma_find_byte_none(w, 0, SP);
        },
        PopCommand::Quit => {
            lemma_find_byte_none(w, 0, SP);
        },
    }
}

/// Text without a line feed, framed with CRLF, reads back as exactly
/// one line holding that text.
pub proof fn lemma_line_framing(t: Seq<u8>)
    requires
        no_lf(t),
    ensures
        ({
            let w = t + seq![CR, LF];
            &&& line_ok(w, 0)
            &&& line_text(w, 0) == t
            &&& line_next(w, 0) == w.len()
        }),
{
    let w = t + seq![CR, LF];
    assert(w[t.len() as int + 1] == LF);
    assert(w[t.len() as int] == CR);
    assert(forall|k: int| 0 <= k < t.len() ==> w[k] == t[k]);
    lemma_find_byte_at(w, 0, LF, t.len() as int + 1);
    assert(w.subrange(0, t.len() as int) =~= t);
}

/// A rendered command holds no line feed, as long as its argument
/// holds none.
pub proof fn lemma_render_no_lf(c: PopCommand)
    requires
        args_line_clean(c@),
    ensures
        no_lf(spec_render(c@)),
{
    match c {
        PopCommand::Retr(i) => {
            lemma_dec_digits_are_digits(i as nat);
        },
        PopCommand::Dele(i) => {
            lemma_dec_digits_are_digits(i as nat);
        },
        _ => {},
    }
}

/// Wire round trip: the full outgoing line of a command — rendering
/// plus CRLF — reads back on the peer's side as one line whose text
/// parses to exactly that command.  Holds for every command whose
/// argument contains no line feed.
pub proof fn lemma_command_wire_round_trip(c: PopCommand)
    requires
        args_line_clean(c@),
    ensures
        ({
            let w = spec_render(c@) + seq![CR, LF];
            &&& line_ok(w, 0)
            &&& line_text(w, 0) == spec_render(c@)
            &&& spec_parse_command(line_text(w, 0)) == Some(c@)
        }),
{
    lemma_render_no_lf(c);
    lemma_line_framing(spec_render(c@));
    lemma_command_round_trip(c);
}

/// A pair of rendered numbers separated by one space parses back,
/// under the two-group grammar, to exactly that pair.  This is the
/// shape of a well-formed STAT reply's text and of every bulk LIST
/// entry line.
pub proof fn lemma_digit_pair_parses(m: u64, o: u64)
    ensures
        spec_parse_two(dec_digits(m as nat) + seq![SP] + dec_digits(o as nat)) == Some(
            (m as nat, o as nat),
        ),
{
    let dm = dec_digits(m as nat);
    let dn = dec_digits(o as nat);
    let t = dm + seq![SP] + dn;
    lemma_dec_digits_are_digits(m as nat);
    lemma_dec_digits_are_digits(o as nat);
    lemma_digits_val_dec_digits(m as nat);
    lemma_digits_val_dec_digits(o as nat);
    assert(forall|k: int| 0 <= k < dm.len() ==> t[k] == dm[k]);
    assert(t[dm.len() as int] == SP);
    assert(forall|k: int|
        dm.len() + 1 <= k < t.len() ==> t[k] == dn[k - (dm.len() as int + 1)]);
    assert(is_digit(t[0]));
    lemma_find_digit_at(t, 0, 0);
    assert(!is_digit(t[dm.len() as int]));
    lemma_group_end_at(t, 0, dm.len() as int);
    lemma_find_digit_at(t, dm.len() as int, dm.len() as int + 1);
    lemma_group_end_at(t, dm.len() as int + 1, t.len() as int);
    assert(t.subrange(0, dm.len() as int) =~= dm);
    assert(t.subrange(dm.len() as int + 1, t.len() as int) =~= dn);
}

/// Every well-formed STAT reply — `+OK`, a space, the message count,
/// a space, the octet total, CRLF — decodes as a successful response
/// whose text yields exactly that count and total.
pub proof fn lemma_stat_reply_decodes(m: u64, o: u64)
    ensures
        ({
            let t = dec_digits(m as nat) + seq![SP] + dec_digits(o as nat);
            let w = seq![PLUS, UPPER_O, UPPER_K, SP] + t + seq![CR, LF];
            &&& resp_line_ok(w, 0)
            &&& resp_line_success(w, 0)
            &&& resp_line_text(w, 0) == t
            &&& spec_parse_two(resp_line_text(w, 0)) == Some((m as nat, o as nat))
        }),
{
    let t = dec_digits(m as nat) + seq![SP] + dec_digits(o as nat);
    let w = seq![PLUS, UPPER_O, UPPER_K, SP] + t + seq![CR, LF];
    lemma_dec_digits_are_digits(m as nat);
    lemma_dec_digits_are_digits(o as nat);
    assert(w[0] == PLUS && w[1] == UPPER_O && w[2] == UPPER_K);
    assert(status_next(w, 0) == 3);
    assert(w[3] == SP);
    assert(resp_text_start(w, 0) == 4);
    let jlf: int = 4 + t.len() as int;
    assert(w[jlf + 1] == LF);
    assert(w[jlf] == CR);
    assert(forall|k: int| 0 <= k < t.len() ==> w[4 + k] == t[k]);
    assert(forall|k: int| 4 <= k < jlf + 1 ==> w[k] != LF);
    lemma_find_byte_at(w, 4, LF, jlf + 1);
    assert(w.subrange(4, jlf) =~= t);
    lemma_digit_pair_parses(m, o);
}

} // verus!
