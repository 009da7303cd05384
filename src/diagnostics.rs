//! Reports on the leniency of the reader: which lines held a number that did
//! not read, so that the value fell back to its default.

use vstd::prelude::*;
use crate::format::{lemma_find_char, value_of_line};
use crate::text::{
    chars_of, field_value, find_char, find_from, has_prefix, parse_u16, parse_u16_spec,
    starts_with, sub_vec, trim, trim_range,
};

verus! {

/// Whether the trimmed `line` holds a number that the reader replaces by its
/// default: a `serverPort` line anywhere, or a `localPort` or `remotePort`
/// line inside a block, whose value does not read as a `u16`.
pub open spec fn falls_back(in_block: bool, line: Seq<char>) -> bool {
    let bad = match field_value(line) {
        Some(v) => parse_u16_spec(trim(v)) is None,
        None => false,
    };
    if starts_with(line, "serverAddr"@) {
        false
    } else if starts_with(line, "serverPort"@) {
        bad
    } else if starts_with(line, "auth.token"@) || starts_with(line, "user"@) || starts_with(
        line,
        "[[proxies]]"@,
    ) {
        false
    } else if !in_block || starts_with(line, "name"@) || starts_with(line, "type"@)
        || starts_with(line, "localIP"@) {
        false
    } else {
        (starts_with(line, "localPort"@) || starts_with(line, "remotePort"@)) && bad
    }
}

/// Whether a block is open after the trimmed `line`.
pub open spec fn block_open_after(in_block: bool, line: Seq<char>) -> bool {
    in_block || (!starts_with(line, "serverAddr"@) && !starts_with(line, "serverPort"@)
        && !starts_with(line, "auth.token"@) && !starts_with(line, "user"@) && starts_with(
        line,
        "[[proxies]]"@,
    ))
}

/// The numbers, counted from `index`, of the lines of `s` from `pos` on
/// whose number falls back to its default.
pub open spec fn fallbacks_from(s: Seq<char>, pos: int, index: int, in_block: bool) -> Seq<int>
    decreases s.len() - pos,
    via fallbacks_from_decreases
{
    if pos < 0 || pos > s.len() {
        Seq::empty()
    } else {
        let i = find_char(s, '\n', pos);
        let line = trim(s.subrange(pos, i));
        let here = if falls_back(in_block, line) {
            seq![index]
        } else {
            Seq::empty()
        };
        let rest = if i < s.len() {
            fallbacks_from(s, i + 1, index + 1, block_open_after(in_block, line))
        } else {
            Seq::empty()
        };
        here + rest
    }
}

#[via_fn]
proof fn fallbacks_from_decreases(s: Seq<char>, pos: int, index: int, in_block: bool) {
    if 0 <= pos <= s.len() {
        lemma_find_char(s, '\n', pos);
    }
}

fn line_falls_back(in_block: bool, line: &Vec<char>) -> (r: bool)
    ensures
        r == falls_back(in_block, line@),
{
    let bad = match value_of_line(line) {
        Some(v) => {
            assert(v@.subrange(0, v@.len() as int) =~= v@);
            let (a, b) = trim_range(&v, 0, v.len());
            parse_u16(&v, a, b).is_none()
        },
        None => false,
    };
    if has_prefix(line, "serverAddr") {
        false
    } else if has_prefix(line, "serverPort") {
        bad
    } else if has_prefix(line, "auth.token") || has_prefix(line, "user") || has_prefix(
        line,
        "[[proxies]]",
    ) {
        false
    } else if !in_block || has_prefix(line, "name") || has_prefix(line, "type") || has_prefix(
        line,
        "localIP",
    ) {
        false
    } else {
        (has_prefix(line, "localPort") || has_prefix(line, "remotePort")) && bad
    }
}

/// The numbers, from 0, of the lines of `content` whose number the reader
/// could not read and replaced by its default.
pub fn parse_warnings(content: &str) -> (r: Vec<usize>)
    ensures
        r@.map_values(|n: usize| n as int) == fallbacks_from(content@, 0, 0, false),
{
    let v = chars_of(content);
    let mut out: Vec<usize> = Vec::new();
    let mut in_block = false;
    let mut index: usize = 0;
    let mut pos: usize = 0;
    loop
        invariant_except_break
            pos <= v@.len(),
            index <= pos,
            out@.map_values(|n: usize| n as int) + fallbacks_from(
                v@,
                pos as int,
                index as int,
                in_block,
            ) == fallbacks_from(v@, 0, 0, false),
        ensures
            out@.map_values(|n: usize| n as int) == fallbacks_from(v@, 0, 0, false),
        decreases v@.len() - pos,
    {
        let i = find_from(&v, '\n', pos);
        proof {
            lemma_find_char(v@, '\n', pos as int);
        }
        let (a, b) = trim_range(&v, pos, i);
        let line = sub_vec(&v, a, b);
        let ghost before = out@.map_values(|n: usize| n as int);
        if line_falls_back(in_block, &line) {
            out.push(index);
            assert(out@.map_values(|n: usize| n as int) =~= before.push(index as int));
        }
        let next_block = in_block || (!has_prefix(&line, "serverAddr") && !has_prefix(
            &line,
            "serverPort",
        ) && !has_prefix(&line, "auth.token") && !has_prefix(&line, "user") && has_prefix(
            &line,
            "[[proxies]]",
        ));
        if i >= v.len() {
            assert(out@.map_values(|n: usize| n as int) =~= fallbacks_from(v@, 0, 0, false));
            break ;
        }
        assert(out@.map_values(|n: usize| n as int) + fallbacks_from(
            v@,
            i + 1,
            index + 1,
            next_block,
        ) =~= fallbacks_from(v@, 0, 0, false));
        in_block = next_block;
        index = index + 1;
        pos = i + 1;
    }
    out
}

} // verus!
