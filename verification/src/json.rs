//! The JSON rendering of the device snapshot that a freshly connected
//! observer receives. The format is pinned down character by character:
//! an array of objects `{"id":...,"name":...,"status":...}` in creation
//! order, with strings escaped the way the original wire format escapes
//! them (short escapes for the common control characters, `\u00XX` for the
//! rest, quote and backslash backslash-escaped, everything else literal).

use vstd::prelude::*;

use crate::device::{models, Dyscypliner, DeviceModel};
use crate::status::spec_status_token;

verus! {

/// Lowercase hexadecimal digit of a value below 16.
pub open spec fn spec_hex_digit(n: int) -> char {
    if n == 0 {
        '0'
    } else if n == 1 {
        '1'
    } else if n == 2 {
        '2'
    } else if n == 3 {
        '3'
    } else if n == 4 {
        '4'
    } else if n == 5 {
        '5'
    } else if n == 6 {
        '6'
    } else if n == 7 {
        '7'
    } else if n == 8 {
        '8'
    } else if n == 9 {
        '9'
    } else if n == 10 {
        'a'
    } else if n == 11 {
        'b'
    } else if n == 12 {
        'c'
    } else if n == 13 {
        'd'
    } else if n == 14 {
        'e'
    } else {
        'f'
    }
}

fn hex_digit(n: u32) -> (c: char)
    requires
        n < 16,
    ensures
        c == spec_hex_digit(n as int),
{
    if n == 0 {
        '0'
    } else if n == 1 {
        '1'
    } else if n == 2 {
        '2'
    } else if n == 3 {
        '3'
    } else if n == 4 {
        '4'
    } else if n == 5 {
        '5'
    } else if n == 6 {
        '6'
    } else if n == 7 {
        '7'
    } else if n == 8 {
        '8'
    } else if n == 9 {
        '9'
    } else if n == 10 {
        'a'
    } else if n == 11 {
        'b'
    } else if n == 12 {
        'c'
    } else if n == 13 {
        'd'
    } else if n == 14 {
        'e'
    } else {
        'f'
    }
}

/// How one character appears inside a JSON string literal.
pub open spec fn spec_escape_char(c: char) -> Seq<char> {
    if c == '"' {
        seq!['\\', '"']
    } else if c == '\\' {
        seq!['\\', '\\']
    } else if c == '\u{8}' {
        seq!['\\', 'b']
    } else if c == '\t' {
        seq!['\\', 't']
    } else if c == '\n' {
        seq!['\\', 'n']
    } else if c == '\u{c}' {
        seq!['\\', 'f']
    } else if c == '\r' {
        seq!['\\', 'r']
    } else if (c as u32) < 0x20 {
        seq!['\\', 'u', '0', '0', spec_hex_digit(((c as u32) / 16) as int), spec_hex_digit(
            ((c as u32) % 16) as int,
        )]
    } else {
        seq![c]
    }
}

/// The escaped body of a JSON string literal holding `s`.
pub open spec fn spec_json_escaped(s: Seq<char>) -> Seq<char>
    decreases s.len(),
{
    if s.len() == 0 {
        Seq::empty()
    } else {
        spec_json_escaped(s.drop_last()) + spec_escape_char(s.last())
    }
}

/// A complete JSON string literal holding `s`.
pub open spec fn spec_json_string(s: Seq<char>) -> Seq<char> {
    "\""@ + spec_json_escaped(s) + "\""@
}

/// The JSON object for one device.
pub open spec fn spec_json_device(d: DeviceModel) -> Seq<char> {
    "{\"id\":"@ + spec_json_string(d.id) + ",\"name\":"@ + spec_json_string(d.name)
        + ",\"status\":"@ + spec_json_string(spec_status_token(d.status)) + "}"@
}

/// Comma-separated concatenation of pre-rendered pieces.
pub open spec fn join_comma(items: Seq<Seq<char>>) -> Seq<char>
    decreases items.len(),
{
    if items.len() == 0 {
        Seq::empty()
    } else if items.len() == 1 {
        items[0]
    } else {
        join_comma(items.drop_last()) + ","@ + items.last()
    }
}

/// The rendered JSON object of each device, in creation order.
pub open spec fn spec_device_entries(devs: Seq<DeviceModel>) -> Seq<Seq<char>> {
    devs.map(|i: int, d: DeviceModel| spec_json_device(d))
}

/// The JSON array of all devices, in creation order.
pub open spec fn spec_json_devices(devs: Seq<DeviceModel>) -> Seq<char> {
    "["@ + join_comma(spec_device_entries(devs)) + "]"@
}

/// Relies on `String::from_iter` over `char`s (via `Iterator::collect`):
/// the string holds exactly the characters of the vector, in order.
#[verifier::external_body]
fn string_from_chars(v: Vec<char>) -> (r: String)
    ensures
        r@ == v@,
{
    v.into_iter().collect()
}

/// Appends every character of `s` to `out`.
pub fn push_str_chars(out: &mut Vec<char>, s: &str)
    ensures
        final(out)@ == old(out)@ + s@,
{
    let ghost out0 = out@;
    let n = s.unicode_len();
    let mut i: usize = 0;
    while i < n
        invariant
            i <= n,
            n == s@.len(),
            out@ == out0 + s@.take(i as int),
        decreases n - i,
    {
        out.push(s.get_char(i));
        proof {
            assert(s@.take(i + 1) =~= s@.take(i as int).push(s@[i as int]));
        }
        i = i + 1;
    }
    proof {
        assert(s@.take(n as int) =~= s@);
    }
}

/// Appends the escaped form of one character to `out`.
fn push_escaped_char(out: &mut Vec<char>, c: char)
    ensures
        final(out)@ == old(out)@ + spec_escape_char(c),
{
    if c == '"' {
        out.push('\\');
        out.push('"');
    } else if c == '\\' {
        out.push('\\');
        out.push('\\');
    } else if c == '\u{8}' {
        out.push('\\');
        out.push('b');
    } else if c == '\t' {
        out.push('\\');
        out.push('t');
    } else if c == '\n' {
        out.push('\\');
        out.push('n');
    } else if c == '\u{c}' {
        out.push('\\');
        out.push('f');
    } else if c == '\r' {
        out.push('\\');
        out.push('r');
    } else if (c as u32) < 0x20 {
        let n = c as u32;
        out.push('\\');
        out.push('u');
        out.push('0');
        out.push('0');
        out.push(hex_digit(n / 16));
        out.push(hex_digit(n % 16));
    } else {
        out.push(c);
    }
    proof {
        assert(out@ =~= old(out)@ + spec_escape_char(c));
    }
}

/// Appends the escaped body of `s` to `out`.
fn json_escaped_into(out: &mut Vec<char>, s: &str)
    ensures
        final(out)@ == old(out)@ + spec_json_escaped(s@),
{
    let ghost out0 = out@;
    let n = s.unicode_len();
    let mut i: usize = 0;
    while i < n
        invariant
            i <= n,
            n == s@.len(),
            out@ == out0 + spec_json_escaped(s@.take(i as int)),
        decreases n - i,
    {
        push_escaped_char(out, s.get_char(i));
        proof {
            let t = s@.take(i + 1);
            assert(t.drop_last() =~= s@.take(i as int));
            assert(t.last() == s@[i as int]);
        }
        i = i + 1;
    }
    proof {
        assert(s@.take(n as int) =~= s@);
    }
}

/// Appends the JSON string literal holding `s` to `out`.
fn json_string_into(out: &mut Vec<char>, s: &str)
    ensures
        final(out)@ == old(out)@ + spec_json_string(s@),
{
    push_str_chars(out, "\"");
    json_escaped_into(out, s);
    push_str_chars(out, "\"");
    proof {
        assert(out@ =~= old(out)@ + spec_json_string(s@));
    }
}

/// Appends the JSON object of one device to `out`.
fn json_device_into(out: &mut Vec<char>, d: &Dyscypliner)
    ensures
        final(out)@ == old(out)@ + spec_json_device(d@),
{
    push_str_chars(out, "{\"id\":");
    json_string_into(out, d.id.as_str());
    push_str_chars(out, ",\"name\":");
    json_string_into(out, d.name.as_str());
    push_str_chars(out, ",\"status\":");
    json_string_into(out, d.status.token());
    push_str_chars(out, "}");
    proof {
        assert(out@ =~= old(out)@ + spec_json_device(d@));
    }
}

/// Renders the JSON array of the whole device roster, in creation order.
pub fn json_devices_text(devs: &Vec<Dyscypliner>) -> (r: String)
    ensures
        r@ == spec_json_devices(models(devs@)),
{
    let ghost entries = spec_device_entries(models(devs@));
    let mut out: Vec<char> = Vec::new();
    push_str_chars(&mut out, "[");
    let mut i: usize = 0;
    while i < devs.len()
        invariant
            i <= devs.len(),
            entries == spec_device_entries(models(devs@)),
            entries.len() == devs.len(),
            out@ == "["@ + join_comma(entries.take(i as int)),
        decreases devs.len() - i,
    {
        if i > 0 {
            push_str_chars(&mut out, ",");
        }
        json_device_into(&mut out, &devs[i]);
        proof {
            let t = entries.take(i + 1);
            assert(t.drop_last() =~= entries.take(i as int));
            assert(t.last() == entries[i as int]);
            assert(entries[i as int] == spec_json_device(devs@[i as int]@));
            if i == 0 {
                assert(out@ =~= "["@ + join_comma(entries.take(i + 1)));
            } else {
                assert(out@ =~= "["@ + join_comma(entries.take(i + 1)));
            }
        }
        i = i + 1;
    }
    push_str_chars(&mut out, "]");
    proof {
        assert(entries.take(devs@.len() as int) =~= entries);
        assert(out@ =~= spec_json_devices(models(devs@)));
    }
    string_from_chars(out)
}

} // verus!
