//! JSON-like values: the payload format of request bodies, variable maps and
//! responses. Numbers that fit a machine integer are carried as integers;
//! every other well-formed number - a fraction, an exponent form, a larger
//! magnitude - is carried by its lexeme as [`JsonValue::NumLit`]. A
//! [`JsonValue::Upload`] node stands for an uploaded file resolved into the
//! variables tree: it holds the index of the file in the request's upload
//! list.

use vstd::prelude::*;

verus! {

/// Executable JSON-like value.
#[derive(Debug)]
pub enum JsonValue {
    Null,
    Bool(bool),
    Int(i64),
    Str(String),
    Arr(Vec<JsonValue>),
    Obj(Vec<(String, JsonValue)>),
    /// A number that is not a machine integer - a fraction, an exponent
    /// form, or a magnitude beyond `i64` - carried by its lexeme, since
    /// the verified pipeline holds no floating point.
    NumLit(String),
    /// A resolved file upload: index into the request's upload list.
    Upload(usize),
}

/// Mathematical model of a JSON-like value.
#[verifier::ext_equal]
pub enum JsonV {
    Null,
    Bool(bool),
    Int(int),
    Str(Seq<char>),
    Arr(Seq<JsonV>),
    Obj(Seq<(Seq<char>, JsonV)>),
    NumLit(Seq<char>),
    Upload(nat),
}

impl View for JsonValue {
    type V = JsonV;

    open spec fn view(&self) -> JsonV
        decreases self,
    {
        match self {
            JsonValue::Null => JsonV::Null,
            JsonValue::Bool(b) => JsonV::Bool(*b),
            JsonValue::Int(i) => JsonV::Int(*i as int),
            JsonValue::Str(s) => JsonV::Str(s@),
            JsonValue::Arr(items) => JsonV::Arr(elem_views(items@)),
            JsonValue::Obj(members) => JsonV::Obj(member_views(members@)),
            JsonValue::NumLit(t) => JsonV::NumLit(t@),
            JsonValue::Upload(k) => JsonV::Upload(*k as nat),
        }
    }
}

/// Views of a sequence of array elements, in order.
pub open spec fn elem_views(items: Seq<JsonValue>) -> Seq<JsonV>
    decreases items,
{
    if items.len() == 0 {
        Seq::empty()
    } else {
        elem_views(items.drop_last()).push(items.last()@)
    }
}

/// Views of a sequence of object members, in order.
pub open spec fn member_views(members: Seq<(String, JsonValue)>) -> Seq<(Seq<char>, JsonV)>
    decreases members,
{
    if members.len() == 0 {
        Seq::empty()
    } else {
        member_views(members.drop_last()).push((members.last().0@, members.last().1@))
    }
}

/// The view of each array element is the element's view.
pub proof fn lemma_elem_views(items: Seq<JsonValue>)
    ensures
        elem_views(items).len() == items.len(),
        forall|i: int| 0 <= i < items.len() ==> #[trigger] elem_views(items)[i] == items[i]@,
    decreases items,
{
    if items.len() > 0 {
        lemma_elem_views(items.drop_last());
        assert(elem_views(items) == elem_views(items.drop_last()).push(items.last()@));
        assert(elem_views(items).len() == items.len());
        assert forall|i: int| 0 <= i < items.len() implies #[trigger] elem_views(items)[i]
            == items[i]@ by {
            if i < items.len() - 1 {
                assert(items.drop_last()[i] == items[i]);
            }
        }
    }
}

/// The view of each object member keeps its key and its value's view.
pub proof fn lemma_member_views(members: Seq<(String, JsonValue)>)
    ensures
        member_views(members).len() == members.len(),
        forall|i: int|
            0 <= i < members.len() ==> #[trigger] member_views(members)[i] == (
                members[i].0@,
                members[i].1@,
            ),
    decreases members,
{
    if members.len() > 0 {
        lemma_member_views(members.drop_last());
        assert(member_views(members) == member_views(members.drop_last()).push(
            (members.last().0@, members.last().1@),
        ));
        assert forall|i: int|
            0 <= i < members.len() implies #[trigger] member_views(members)[i] == (
            members[i].0@,
            members[i].1@,
        ) by {
            if i < members.len() - 1 {
                assert(members.drop_last()[i] == members[i]);
            }
        }
    }
}

/// The characters standing for one string character in serialized form:
/// quote, backslash and the common control characters are escaped.
pub open spec fn escape_char(c: char) -> Seq<char> {
    if c == '"' {
        seq!['\\', '"']
    } else if c == '\\' {
        seq!['\\', '\\']
    } else if c == '\n' {
        seq!['\\', 'n']
    } else if c == '\t' {
        seq!['\\', 't']
    } else if c == '\r' {
        seq!['\\', 'r']
    } else {
        seq![c]
    }
}

/// A string's content in serialized form.
pub open spec fn escape_string(s: Seq<char>) -> Seq<char>
    decreases s,
{
    if s.len() == 0 {
        Seq::empty()
    } else {
        escape_string(s.drop_last()) + escape_char(s.last())
    }
}

/// The decimal digit character for one value below ten.
pub open spec fn digit_char(d: nat) -> char {
    if d == 0 {
        '0'
    } else if d == 1 {
        '1'
    } else if d == 2 {
        '2'
    } else if d == 3 {
        '3'
    } else if d == 4 {
        '4'
    } else if d == 5 {
        '5'
    } else if d == 6 {
        '6'
    } else if d == 7 {
        '7'
    } else if d == 8 {
        '8'
    } else {
        '9'
    }
}

/// Decimal digits of a natural number, most significant first.
pub open spec fn dec_digits(n: nat) -> Seq<char>
    decreases n,
{
    if n < 10 {
        seq![digit_char(n)]
    } else {
        dec_digits(n / 10).push(digit_char(n % 10))
    }
}

/// Serialized form of an integer.
pub open spec fn int_text(i: int) -> Seq<char> {
    if i < 0 {
        seq!['-'] + dec_digits((-i) as nat)
    } else {
        dec_digits(i as nat)
    }
}

/// Canonical serialized text of a JSON-like value: no whitespace, object
/// members in their stored order, a number lexeme emitted verbatim. An
/// upload handle serializes as `null`, as the wire format has no standing
/// for it.
pub open spec fn json_text(v: JsonV) -> Seq<char>
    decreases v, 1nat,
{
    match v {
        JsonV::Null => "null"@,
        JsonV::Bool(b) => if b {
            "true"@
        } else {
            "false"@
        },
        JsonV::Int(i) => int_text(i),
        JsonV::Str(s) => seq!['"'] + escape_string(s) + seq!['"'],
        JsonV::Arr(items) => seq!['['] + arr_text(items) + seq![']'],
        JsonV::Obj(members) => seq!['{'] + obj_text(members) + seq!['}'],
        JsonV::NumLit(t) => t,
        JsonV::Upload(_) => "null"@,
    }
}

/// Serialized text of comma-separated array elements.
pub open spec fn arr_text(items: Seq<JsonV>) -> Seq<char>
    decreases items, 0nat,
{
    if items.len() == 0 {
        Seq::empty()
    } else if items.len() == 1 {
        json_text(items.last())
    } else {
        arr_text(items.drop_last()) + seq![','] + json_text(items.last())
    }
}

/// Serialized text of one object member.
pub open spec fn member_text(m: (Seq<char>, JsonV)) -> Seq<char>
    decreases m, 1nat,
{
    seq!['"'] + escape_string(m.0) + seq!['"', ':'] + json_text(m.1)
}

/// Serialized text of comma-separated object members.
pub open spec fn obj_text(members: Seq<(Seq<char>, JsonV)>) -> Seq<char>
    decreases members, 0nat,
{
    if members.len() == 0 {
        Seq::empty()
    } else if members.len() == 1 {
        member_text(members.last())
    } else {
        obj_text(members.drop_last()) + seq![','] + member_text(members.last())
    }
}

/// Appends the decimal digit character of one value below ten.
fn append_digit(d: u64, out: &mut String)
    requires
        d < 10,
    ensures
        final(out)@ == old(out)@ + seq![digit_char(d as nat)],
{
    proof {
        reveal_strlit("0");
        reveal_strlit("1");
        reveal_strlit("2");
        reveal_strlit("3");
        reveal_strlit("4");
        reveal_strlit("5");
        reveal_strlit("6");
        reveal_strlit("7");
        reveal_strlit("8");
        reveal_strlit("9");
    }
    match d {
        0 => out.append("0"),
        1 => out.append("1"),
        2 => out.append("2"),
        3 => out.append("3"),
        4 => out.append("4"),
        5 => out.append("5"),
        6 => out.append("6"),
        7 => out.append("7"),
        8 => out.append("8"),
        _ => out.append("9"),
    }
    proof {
        assert(final(out)@ =~= old(out)@ + seq![digit_char(d as nat)]);
    }
}

/// Appends the decimal digits of a number.
fn append_decimal(n: u64, out: &mut String)
    ensures
        final(out)@ == old(out)@ + dec_digits(n as nat),
    decreases n,
{
    if n < 10 {
        append_digit(n, out);
    } else {
        append_decimal(n / 10, out);
        append_digit(n % 10, out);
        proof {
            assert(final(out)@ =~= old(out)@ + dec_digits(n as nat));
        }
    }
}

/// Appends a string's content with the escapes of `escape_string`.
fn append_escaped(s: &String, out: &mut String)
    ensures
        final(out)@ == old(out)@ + escape_string(s@),
{
    let slice = s.as_str();
    let n = slice.unicode_len();
    let mut k: usize = 0;
    while k < n
        invariant
            n == s@.len(),
            slice@ == s@,
            0 <= k <= n,
            out@ == old(out)@ + escape_string(s@.subrange(0, k as int)),
        decreases n - k,
    {
        let ghost pre = s@.subrange(0, k as int);
        let ghost pre1 = s@.subrange(0, k as int + 1);
        proof {
            assert(pre1.drop_last() =~= pre);
            assert(pre1.last() == s@[k as int]);
            reveal_strlit("\\\"");
            reveal_strlit("\\\\");
            reveal_strlit("\\n");
            reveal_strlit("\\t");
            reveal_strlit("\\r");
        }
        let c = slice.get_char(k);
        if c == '"' {
            out.append("\\\"");
        } else if c == '\\' {
            out.append("\\\\");
        } else if c == '\n' {
            out.append("\\n");
        } else if c == '\t' {
            out.append("\\t");
        } else if c == '\r' {
            out.append("\\r");
        } else {
            let piece = slice.substring_char(k, k + 1);
            out.append(piece);
            proof {
                assert(piece@ =~= seq![s@[k as int]]);
            }
        }
        proof {
            assert(out@ =~= old(out)@ + escape_string(pre1));
        }
        k = k + 1;
    }
    proof {
        assert(s@.subrange(0, s@.len() as int) =~= s@);
    }
}

/// Appends the canonical serialized text of a value.
fn append_json(v: &JsonValue, out: &mut String)
    ensures
        final(out)@ == old(out)@ + json_text(v@),
    decreases v, 1nat, 0nat,
{
    proof {
        reveal_strlit("null");
        reveal_strlit("true");
        reveal_strlit("false");
        reveal_strlit("\"");
        reveal_strlit("-");
        reveal_strlit("[");
        reveal_strlit("]");
        reveal_strlit("{");
        reveal_strlit("}");
    }
    match v {
        JsonValue::Null => {
            out.append("null");
        },
        JsonValue::Bool(b) => {
            if *b {
                out.append("true");
            } else {
                out.append("false");
            }
        },
        JsonValue::Int(i) => {
            let m: u64;
            if *i < 0 {
                out.append("-");
                m = ((-(*i + 1)) as u64) + 1;
            } else {
                m = *i as u64;
            }
            append_decimal(m, out);
            proof {
                assert(final(out)@ =~= old(out)@ + json_text(v@));
            }
        },
        JsonValue::Str(s) => {
            out.append("\"");
            append_escaped(s, out);
            out.append("\"");
            proof {
                assert(final(out)@ =~= old(out)@ + json_text(v@));
            }
        },
        JsonValue::Arr(items) => {
            out.append("[");
            append_arr_elems(items, items.len(), out);
            out.append("]");
            proof {
                assert(items@.subrange(0, items@.len() as int) =~= items@);
                assert(final(out)@ =~= old(out)@ + json_text(v@));
            }
        },
        JsonValue::Obj(members) => {
            out.append("{");
            append_obj_members(members, members.len(), out);
            out.append("}");
            proof {
                assert(members@.subrange(0, members@.len() as int) =~= members@);
                assert(final(out)@ =~= old(out)@ + json_text(v@));
            }
        },
        JsonValue::NumLit(t) => {
            out.append(t.as_str());
        },
        JsonValue::Upload(_) => {
            out.append("null");
        },
    }
}

/// Appends the first `upto` elements of an array, comma-separated.
fn append_arr_elems(items: &Vec<JsonValue>, upto: usize, out: &mut String)
    requires
        upto <= items@.len(),
    ensures
        final(out)@ == old(out)@ + arr_text(elem_views(items@.subrange(0, upto as int))),
    decreases items@, 0nat, upto,
{
    proof {
        reveal_strlit(",");
        lemma_elem_views(items@.subrange(0, upto as int));
    }
    if upto == 0 {
        proof {
            assert(final(out)@ =~= old(out)@ + arr_text(
                elem_views(items@.subrange(0, upto as int)),
            ));
        }
    } else if upto == 1 {
        append_json(&items[0], out);
        proof {
            let vs = elem_views(items@.subrange(0, 1));
            assert(vs.last() == items@[0]@);
            assert(final(out)@ =~= old(out)@ + arr_text(vs));
        }
    } else {
        append_arr_elems(items, upto - 1, out);
        out.append(",");
        append_json(&items[upto - 1], out);
        proof {
            let vs = elem_views(items@.subrange(0, upto as int));
            let vs0 = elem_views(items@.subrange(0, upto as int - 1));
            lemma_elem_views(items@.subrange(0, upto as int - 1));
            assert(vs.drop_last() =~= vs0);
            assert(vs.last() == items@[upto as int - 1]@);
            assert(final(out)@ =~= old(out)@ + arr_text(vs));
        }
    }
}

/// Appends the first `upto` members of an object, comma-separated.
fn append_obj_members(members: &Vec<(String, JsonValue)>, upto: usize, out: &mut String)
    requires
        upto <= members@.len(),
    ensures
        final(out)@ == old(out)@ + obj_text(member_views(members@.subrange(0, upto as int))),
    decreases members@, 0nat, upto,
{
    proof {
        reveal_strlit(",");
        lemma_member_views(members@.subrange(0, upto as int));
    }
    if upto == 0 {
        proof {
            assert(final(out)@ =~= old(out)@ + obj_text(
                member_views(members@.subrange(0, upto as int)),
            ));
        }
    } else if upto == 1 {
        append_one_member(&members[0], out);
        proof {
            let vs = member_views(members@.subrange(0, 1));
            assert(vs.last() == (members@[0].0@, members@[0].1@));
            assert(final(out)@ =~= old(out)@ + obj_text(vs));
        }
    } else {
        append_obj_members(members, upto - 1, out);
        out.append(",");
        append_one_member(&members[upto - 1], out);
        proof {
            let vs = member_views(members@.subrange(0, upto as int));
            let vs0 = member_views(members@.subrange(0, upto as int - 1));
            lemma_member_views(members@.subrange(0, upto as int - 1));
            assert(vs.drop_last() =~= vs0);
            assert(vs.last() == (members@[upto as int - 1].0@, members@[upto as int - 1].1@));
            assert(final(out)@ =~= old(out)@ + obj_text(vs));
        }
    }
}

/// Appends one `"key":value` member.
fn append_one_member(m: &(String, JsonValue), out: &mut String)
    ensures
        final(out)@ == old(out)@ + member_text((m.0@, m.1@)),
    decreases m, 1nat, 0nat,
{
    proof {
        reveal_strlit("\"");
        reveal_strlit("\":");
    }
    out.append("\"");
    append_escaped(&m.0, out);
    out.append("\":");
    append_json(&m.1, out);
    proof {
        assert(final(out)@ =~= old(out)@ + member_text((m.0@, m.1@)));
    }
}

/// The canonical serialized text of a value: what the transport sends.
pub fn to_json_text(v: &JsonValue) -> (r: String)
    ensures
        r@ == json_text(v@),
{
    let mut out = String::new();
    append_json(v, &mut out);
    out
}

/// JSON whitespace.
pub open spec fn is_ws(c: char) -> bool {
    c == ' ' || c == '\n' || c == '\t' || c == '\r'
}

/// First position at or after `i` holding no whitespace.
pub open spec fn ws_end(s: Seq<char>, i: int) -> int
    decreases s.len() - i,
{
    if i < s.len() && is_ws(s[i]) {
        ws_end(s, i + 1)
    } else {
        i
    }
}

/// What one escape character after a backslash stands for, if accepted.
pub open spec fn unescape_char(c: char) -> Option<char> {
    if c == '"' {
        Some('"')
    } else if c == '\\' {
        Some('\\')
    } else if c == '/' {
        Some('/')
    } else if c == 'n' {
        Some('\n')
    } else if c == 't' {
        Some('\t')
    } else if c == 'r' {
        Some('\r')
    } else {
        None
    }
}

/// Value of one hexadecimal digit character.
pub open spec fn hex_digit_val(c: char) -> Option<nat> {
    if 48 <= c as u32 <= 57 {
        Some((c as u32 - 48) as nat)
    } else if 97 <= c as u32 <= 102 {
        Some((c as u32 - 87) as nat)
    } else if 65 <= c as u32 <= 70 {
        Some((c as u32 - 55) as nat)
    } else {
        None
    }
}

/// The code point named by four hexadecimal digits.
pub open spec fn hex4_val(a: char, b: char, c: char, d: char) -> Option<nat> {
    match hex_digit_val(a) {
        None => None,
        Some(x) => match hex_digit_val(b) {
            None => None,
            Some(y) => match hex_digit_val(c) {
                None => None,
                Some(z) => match hex_digit_val(d) {
                    None => None,
                    Some(w) => Some(x * 4096 + y * 256 + z * 16 + w),
                },
            },
        },
    }
}

/// String body parse: from just after the opening quote to just after the
/// closing quote, accumulating decoded characters. A `\uXXXX` escape names
/// one code point; surrogate codes are rejected (astral characters arrive
/// as literal text).
pub open spec fn sp_string(s: Seq<char>, i: int, acc: Seq<char>, fuel: nat) -> Option<
    (Seq<char>, int),
>
    decreases fuel,
{
    if fuel == 0 {
        None
    } else if i >= s.len() {
        None
    } else if s[i] == '"' {
        Some((acc, i + 1))
    } else if s[i] == '\\' {
        if i + 1 < s.len() && s[i + 1] == 'u' {
            if i + 6 <= s.len() {
                match hex4_val(s[i + 2], s[i + 3], s[i + 4], s[i + 5]) {
                    Some(code) => if code < 0xD800 || code > 0xDFFF {
                        sp_string(s, i + 6, acc.push((code as u32) as char), (fuel - 1) as nat)
                    } else {
                        None
                    },
                    None => None,
                }
            } else {
                None
            }
        } else if i + 1 < s.len() {
            match unescape_char(s[i + 1]) {
                Some(c) => sp_string(s, i + 2, acc.push(c), (fuel - 1) as nat),
                None => None,
            }
        } else {
            None
        }
    } else {
        sp_string(s, i + 1, acc.push(s[i]), (fuel - 1) as nat)
    }
}

/// A decimal digit, by code point.
pub open spec fn is_digit(c: char) -> bool {
    48 <= c as u32 <= 57
}

/// Numeric value of a digit character.
pub open spec fn digit_val(c: char) -> nat {
    (c as u32 - 48) as nat
}

/// First position at or after `i` holding no digit.
pub open spec fn digits_end(s: Seq<char>, i: int) -> int
    decreases s.len() - i,
{
    if i < s.len() && is_digit(s[i]) {
        digits_end(s, i + 1)
    } else {
        i
    }
}

/// Value of the digit run from `i` (inclusive) to `j` (exclusive).
pub open spec fn digits_val(s: Seq<char>, i: int, j: int) -> nat
    decreases j - i,
{
    if j <= i {
        0
    } else {
        digits_val(s, i, j - 1) * 10 + digit_val(s[j - 1])
    }
}

/// End of the optional fraction part starting at `j`, or `None` where a
/// bare `.` has no digits after it.
pub open spec fn frac_end(s: Seq<char>, j: int) -> Option<int> {
    if j < s.len() && s[j] == '.' {
        let k = digits_end(s, j + 1);
        if k > j + 1 {
            Some(k)
        } else {
            None
        }
    } else {
        Some(j)
    }
}

/// End of the optional exponent part starting at `j2`, or `None` where an
/// `e` has no digits after it.
pub open spec fn exp_end(s: Seq<char>, j2: int) -> Option<int> {
    if j2 < s.len() && (s[j2] == 'e' || s[j2] == 'E') {
        let es = if j2 + 1 < s.len() && (s[j2 + 1] == '+' || s[j2 + 1] == '-') {
            j2 + 2
        } else {
            j2 + 1
        };
        let k = digits_end(s, es);
        if k > es {
            Some(k)
        } else {
            None
        }
    } else {
        Some(j2)
    }
}

/// Number parse: an optional minus sign, a digit run, an optional
/// fraction and an optional exponent. A plain integer that fits `i64`
/// becomes `Int`; every other well-formed number keeps its lexeme as
/// `NumLit`, fractions and large magnitudes included.
pub open spec fn sp_number(s: Seq<char>, i: int) -> Option<(JsonV, int)> {
    let neg = i < s.len() && s[i] == '-';
    let start = if neg {
        i + 1
    } else {
        i
    };
    let j = digits_end(s, start);
    if j == start {
        None
    } else {
        match frac_end(s, j) {
            None => None,
            Some(j2) => match exp_end(s, j2) {
                None => None,
                Some(j3) => if j3 == j {
                    let m = digits_val(s, start, j);
                    if m > 0x7fff_ffff_ffff_ffff {
                        Some((JsonV::NumLit(s.subrange(i, j)), j))
                    } else {
                        Some(
                            ((if neg {
                                JsonV::Int(-(m as int))
                            } else {
                                JsonV::Int(m as int)
                            }), j),
                        )
                    }
                } else {
                    Some((JsonV::NumLit(s.subrange(i, j3)), j3))
                },
            },
        }
    }
}

/// Value parse, fuel-bounded: leading whitespace, then one JSON value.
pub open spec fn sp_value(s: Seq<char>, i0: int, fuel: nat) -> Option<(JsonV, int)>
    decreases fuel, 1nat,
{
    if fuel == 0 {
        None
    } else {
        let i = ws_end(s, i0);
        if i >= s.len() {
            None
        } else if s[i] == 'n' {
            if i + 4 <= s.len() && s[i + 1] == 'u' && s[i + 2] == 'l' && s[i + 3] == 'l' {
                Some((JsonV::Null, i + 4))
            } else {
                None
            }
        } else if s[i] == 't' {
            if i + 4 <= s.len() && s[i + 1] == 'r' && s[i + 2] == 'u' && s[i + 3] == 'e' {
                Some((JsonV::Bool(true), i + 4))
            } else {
                None
            }
        } else if s[i] == 'f' {
            if i + 5 <= s.len() && s[i + 1] == 'a' && s[i + 2] == 'l' && s[i + 3] == 's' && s[i
                + 4] == 'e' {
                Some((JsonV::Bool(false), i + 5))
            } else {
                None
            }
        } else if s[i] == '"' {
            match sp_string(s, i + 1, Seq::empty(), (fuel - 1) as nat) {
                Some((cs, j)) => Some((JsonV::Str(cs), j)),
                None => None,
            }
        } else if s[i] == '[' {
            let k = ws_end(s, i + 1);
            if k < s.len() && s[k] == ']' {
                Some((JsonV::Arr(Seq::empty()), k + 1))
            } else {
                match sp_elems(s, i + 1, Seq::empty(), (fuel - 1) as nat) {
                    Some((items, j)) => Some((JsonV::Arr(items), j)),
                    None => None,
                }
            }
        } else if s[i] == '{' {
            let k = ws_end(s, i + 1);
            if k < s.len() && s[k] == '}' {
                Some((JsonV::Obj(Seq::empty()), k + 1))
            } else {
                match sp_members(s, i + 1, Seq::empty(), (fuel - 1) as nat) {
                    Some((members, j)) => Some((JsonV::Obj(members), j)),
                    None => None,
                }
            }
        } else {
            sp_number(s, i)
        }
    }
}

/// Non-empty array tail parse: one value, then `,` and more or `]`.
pub open spec fn sp_elems(s: Seq<char>, i: int, acc: Seq<JsonV>, fuel: nat) -> Option<
    (Seq<JsonV>, int),
>
    decreases fuel, 0nat,
{
    if fuel == 0 {
        None
    } else {
        match sp_value(s, i, (fuel - 1) as nat) {
            Some((v, j)) => {
                let k = ws_end(s, j);
                if k < s.len() && s[k] == ',' {
                    sp_elems(s, k + 1, acc.push(v), (fuel - 1) as nat)
                } else if k < s.len() && s[k] == ']' {
                    Some((acc.push(v), k + 1))
                } else {
                    None
                }
            },
            None => None,
        }
    }
}

/// Non-empty object tail parse: `"key": value`, then `,` and more or `}`.
pub open spec fn sp_members(s: Seq<char>, i: int, acc: Seq<(Seq<char>, JsonV)>, fuel: nat) -> Option<
    (Seq<(Seq<char>, JsonV)>, int),
>
    decreases fuel, 0nat,
{
    if fuel == 0 {
        None
    } else {
        let k0 = ws_end(s, i);
        if k0 < s.len() && s[k0] == '"' {
            match sp_string(s, k0 + 1, Seq::empty(), (fuel - 1) as nat) {
                Some((key, j1)) => {
                    let k1 = ws_end(s, j1);
                    if k1 < s.len() && s[k1] == ':' {
                        match sp_value(s, k1 + 1, (fuel - 1) as nat) {
                            Some((v, j2)) => {
                                let k2 = ws_end(s, j2);
                                if k2 < s.len() && s[k2] == ',' {
                                    sp_members(s, k2 + 1, acc.push((key, v)), (fuel - 1) as nat)
                                } else if k2 < s.len() && s[k2] == '}' {
                                    Some((acc.push((key, v)), k2 + 1))
                                } else {
                                    None
                                }
                            },
                            None => None,
                        }
                    } else {
                        None
                    }
                },
                None => None,
            }
        } else {
            None
        }
    }
}

/// The parse of a whole body: one value, with nothing but whitespace
/// after it. The fuel bound, one step per character plus one, never cuts
/// a parse short: every fuel decrement follows at least one character
/// consumed.
pub open spec fn spec_parse_json(s: Seq<char>) -> Option<JsonV> {
    match sp_value(s, 0, (s.len() + 1) as nat) {
        Some((v, j)) => if ws_end(s, j) == s.len() {
            Some(v)
        } else {
            None
        },
        None => None,
    }
}

/// Executable counterpart of `ws_end`.
pub fn exec_ws_end(s: &str, i: usize) -> (r: usize)
    requires
        i <= s@.len(),
    ensures
        r as int == ws_end(s@, i as int),
        i <= r <= s@.len(),
    decreases s@.len() - i,
{
    let n = s.unicode_len();
    if i < n {
        let c = s.get_char(i);
        if c == ' ' || c == '\n' || c == '\t' || c == '\r' {
            return exec_ws_end(s, i + 1);
        }
    }
    i
}

/// Executable counterpart of `digits_end`.
pub fn exec_digits_end(s: &str, i: usize) -> (r: usize)
    requires
        i <= s@.len(),
    ensures
        r as int == digits_end(s@, i as int),
        i <= r <= s@.len(),
    decreases s@.len() - i,
{
    let n = s.unicode_len();
    if i < n {
        let c = s.get_char(i);
        let u = c as u32;
        if 48 <= u && u <= 57 {
            return exec_digits_end(s, i + 1);
        }
    }
    i
}

/// Executable counterpart of `digits_val`, rejecting magnitudes beyond
/// `i64::MAX` as the spec does.
pub fn exec_digits_val(s: &str, i: usize, j: usize) -> (r: Option<u64>)
    requires
        i <= j <= s@.len(),
        forall|k: int| i <= k < j ==> is_digit(#[trigger] s@[k]),
    ensures
        match r {
            Some(m) => m as nat == digits_val(s@, i as int, j as int) && m
                <= 0x7fff_ffff_ffff_ffffu64,
            None => digits_val(s@, i as int, j as int) > 0x7fff_ffff_ffff_ffff,
        },
    decreases j - i,
{
    if j <= i {
        Some(0)
    } else {
        match exec_digits_val(s, i, j - 1) {
            Some(m) => {
                let c = s.get_char(j - 1);
                let d = (c as u32 - 48) as u64;
                let t: u128 = (m as u128) * 10 + (d as u128);
                if t > 0x7fff_ffff_ffff_ffffu128 {
                    None
                } else {
                    Some(t as u64)
                }
            },
            None => {
                proof {
                    let full = digits_val(s@, i as int, j as int);
                    let prev = digits_val(s@, i as int, j as int - 1);
                    assert(full == prev * 10 + digit_val(s@[j as int - 1]));
                    assert(prev * 10 >= prev) by (nonlinear_arith)
                        requires
                            prev >= 0,
                    ;
                }
                None
            },
        }
    }
}

/// Relies on char::from_u32: for a valid Unicode scalar value it returns
/// the character with exactly that code point.
#[verifier::external_body]
fn char_from_code(code: u32) -> (c: char)
    requires
        code < 0xD800 || (0xE000 <= code && code <= 0x10FFFF),
    ensures
        c as u32 == code,
{
    char::from_u32(code).unwrap()
}

/// Relies on str::len and on Rust's guarantee that a `str` is the UTF-8
/// encoding of its characters: the byte length equals the length of
/// `vstd::utf8::encode_utf8` of the character sequence.
#[verifier::external_body]
pub fn utf8_len(s: &str) -> (r: usize)
    ensures
        r == vstd::utf8::encode_utf8(s@).len(),
{
    s.len()
}

/// Relies on String::push: it appends exactly the given character.
#[verifier::external_body]
fn push_char(s: &mut String, c: char)
    ensures
        final(s)@ == old(s)@.push(c),
{
    s.push(c)
}

/// Executable counterpart of `hex_digit_val`.
fn exec_hex_val(c: char) -> (r: Option<u32>)
    ensures
        match hex_digit_val(c) {
            Some(v) => r matches Some(u) && u as nat == v && u < 16,
            None => r is None,
        },
{
    let u = c as u32;
    if 48 <= u && u <= 57 {
        Some(u - 48)
    } else if 97 <= u && u <= 102 {
        Some(u - 87)
    } else if 65 <= u && u <= 70 {
        Some(u - 55)
    } else {
        None
    }
}

/// Executable counterpart of `sp_string`, building the decoded string.
fn exec_string(s: &str, i: usize, acc: String, fuel: usize) -> (r: Option<(String, usize)>)
    requires
        i <= s@.len(),
    ensures
        match r {
            Some(p) => sp_string(s@, i as int, acc@, fuel as nat) == Some((p.0@, p.1 as int))
                && p.1 <= s@.len(),
            None => sp_string(s@, i as int, acc@, fuel as nat) is None,
        },
    decreases fuel,
{
    if fuel == 0 {
        return None;
    }
    let n = s.unicode_len();
    if i >= n {
        return None;
    }
    let c = s.get_char(i);
    if c == '"' {
        return Some((acc, i + 1));
    }
    if c == '\\' {
        if n - i > 1 && s.get_char(i + 1) == 'u' {
            if n - i >= 6 {
                let h1 = exec_hex_val(s.get_char(i + 2));
                let h2 = exec_hex_val(s.get_char(i + 3));
                let h3 = exec_hex_val(s.get_char(i + 4));
                let h4 = exec_hex_val(s.get_char(i + 5));
                match (h1, h2, h3, h4) {
                    (Some(x), Some(y), Some(z), Some(w)) => {
                        let code: u32 = x * 4096 + y * 256 + z * 16 + w;
                        if code < 0xD800 || code > 0xDFFF {
                            let ch = char_from_code(code);
                            let mut acc2 = acc;
                            push_char(&mut acc2, ch);
                            proof {
                                vstd::utf8::char_u32_cast(ch, code);
                                assert(acc2@ =~= acc@.push((code as u32) as char));
                            }
                            return exec_string(s, i + 6, acc2, fuel - 1);
                        } else {
                            return None;
                        }
                    },
                    _ => {
                        return None;
                    },
                }
            } else {
                return None;
            }
        }
        if n - i > 1 {
            let c2 = s.get_char(i + 1);
            let mut acc2 = acc;
            proof {
                reveal_strlit("\"");
                reveal_strlit("\\");
                reveal_strlit("/");
                reveal_strlit("\n");
                reveal_strlit("\t");
                reveal_strlit("\r");
            }
            if c2 == '"' {
                acc2.append("\"");
            } else if c2 == '\\' {
                acc2.append("\\");
            } else if c2 == '/' {
                acc2.append("/");
            } else if c2 == 'n' {
                acc2.append("\n");
            } else if c2 == 't' {
                acc2.append("\t");
            } else if c2 == 'r' {
                acc2.append("\r");
            } else {
                return None;
            }
            proof {
                assert(acc2@ =~= acc@.push(unescape_char(s@[i as int + 1])->0));
            }
            return exec_string(s, i + 2, acc2, fuel - 1);
        } else {
            return None;
        }
    }
    let piece = s.substring_char(i, i + 1);
    let mut acc2 = acc;
    acc2.append(piece);
    proof {
        assert(acc2@ =~= acc@.push(s@[i as int]));
    }
    exec_string(s, i + 1, acc2, fuel - 1)
}

/// Executable counterpart of `sp_number`.
fn exec_number(s: &str, i: usize) -> (r: Option<(JsonValue, usize)>)
    requires
        i <= s@.len(),
    ensures
        match r {
            Some(p) => sp_number(s@, i as int) == Some((p.0@, p.1 as int)) && p.1 <= s@.len(),
            None => sp_number(s@, i as int) is None,
        },
{
    let n = s.unicode_len();
    let mut neg = false;
    let mut start = i;
    if i < n && s.get_char(i) == '-' {
        neg = true;
        start = i + 1;
    }
    let j = exec_digits_end(s, start);
    if j == start {
        return None;
    }
    let j2: usize;
    if j < n && s.get_char(j) == '.' {
        let k = exec_digits_end(s, j + 1);
        if k > j + 1 {
            j2 = k;
        } else {
            return None;
        }
    } else {
        j2 = j;
    }
    let j3: usize;
    if j2 < n && (s.get_char(j2) == 'e' || s.get_char(j2) == 'E') {
        let es: usize = if j2 + 1 < n && (s.get_char(j2 + 1) == '+' || s.get_char(j2 + 1)
            == '-') {
            j2 + 2
        } else {
            j2 + 1
        };
        let k = exec_digits_end(s, es);
        if k > es {
            j3 = k;
        } else {
            return None;
        }
    } else {
        j3 = j2;
    }
    if j3 != j {
        let lexeme = String::from_str(s.substring_char(i, j3));
        return Some((JsonValue::NumLit(lexeme), j3));
    }
    proof {
        lemma_digits_run(s@, start as int, j as int);
    }
    match exec_digits_val(s, start, j) {
        Some(m) => {
            if neg {
                let v: i64 = -(m as i64);
                Some((JsonValue::Int(v), j))
            } else {
                Some((JsonValue::Int(m as i64), j))
            }
        },
        None => {
            let lexeme = String::from_str(s.substring_char(i, j));
            Some((JsonValue::NumLit(lexeme), j))
        },
    }
}

/// Every position of a digit run up to `digits_end` holds a digit.
pub proof fn lemma_digits_run(s: Seq<char>, i: int, j: int)
    requires
        0 <= i <= s.len(),
        j == digits_end(s, i),
    ensures
        forall|k: int| i <= k < j ==> is_digit(#[trigger] s[k]),
        i <= j <= s.len(),
    decreases s.len() - i,
{
    if i < s.len() && is_digit(s[i]) {
        lemma_digits_run(s, i + 1, j);
    }
}

/// Executable counterpart of `sp_value`.
fn exec_value(s: &str, i0: usize, fuel: usize) -> (r: Option<(JsonValue, usize)>)
    requires
        i0 <= s@.len(),
    ensures
        match r {
            Some(p) => sp_value(s@, i0 as int, fuel as nat) == Some((p.0@, p.1 as int)) && p.1
                <= s@.len(),
            None => sp_value(s@, i0 as int, fuel as nat) is None,
        },
    decreases fuel, 1nat,
{
    if fuel == 0 {
        return None;
    }
    let n = s.unicode_len();
    let i = exec_ws_end(s, i0);
    if i >= n {
        return None;
    }
    let c = s.get_char(i);
    if c == 'n' {
        if n - i >= 4 && s.get_char(i + 1) == 'u' && s.get_char(i + 2) == 'l' && s.get_char(i + 3)
            == 'l' {
            Some((JsonValue::Null, i + 4))
        } else {
            None
        }
    } else if c == 't' {
        if n - i >= 4 && s.get_char(i + 1) == 'r' && s.get_char(i + 2) == 'u' && s.get_char(i + 3)
            == 'e' {
            Some((JsonValue::Bool(true), i + 4))
        } else {
            None
        }
    } else if c == 'f' {
        if n - i >= 5 && s.get_char(i + 1) == 'a' && s.get_char(i + 2) == 'l' && s.get_char(i + 3)
            == 's' && s.get_char(i + 4) == 'e' {
            Some((JsonValue::Bool(false), i + 5))
        } else {
            None
        }
    } else if c == '"' {
        match exec_string(s, i + 1, String::new(), fuel - 1) {
            Some(p) => Some((JsonValue::Str(p.0), p.1)),
            None => None,
        }
    } else if c == '[' {
        let k = exec_ws_end(s, i + 1);
        if k < n && s.get_char(k) == ']' {
            let items: Vec<JsonValue> = Vec::new();
            proof {
                assert(elem_views(items@) =~= Seq::<JsonV>::empty());
            }
            Some((JsonValue::Arr(items), k + 1))
        } else {
            let acc: Vec<JsonValue> = Vec::new();
            proof {
                assert(elem_views(acc@) =~= Seq::<JsonV>::empty());
            }
            match exec_elems(s, i + 1, acc, fuel - 1) {
                Some(p) => Some((JsonValue::Arr(p.0), p.1)),
                None => None,
            }
        }
    } else if c == '{' {
        let k = exec_ws_end(s, i + 1);
        if k < n && s.get_char(k) == '}' {
            let members: Vec<(String, JsonValue)> = Vec::new();
            proof {
                assert(member_views(members@) =~= Seq::<(Seq<char>, JsonV)>::empty());
            }
            Some((JsonValue::Obj(members), k + 1))
        } else {
            let acc: Vec<(String, JsonValue)> = Vec::new();
            proof {
                assert(member_views(acc@) =~= Seq::<(Seq<char>, JsonV)>::empty());
            }
            match exec_members(s, i + 1, acc, fuel - 1) {
                Some(p) => Some((JsonValue::Obj(p.0), p.1)),
                None => None,
            }
        }
    } else {
        exec_number(s, i)
    }
}

/// Executable counterpart of `sp_elems`.
fn exec_elems(s: &str, i: usize, acc: Vec<JsonValue>, fuel: usize) -> (r: Option<
    (Vec<JsonValue>, usize),
>)
    requires
        i <= s@.len(),
    ensures
        match r {
            Some(p) => sp_elems(s@, i as int, elem_views(acc@), fuel as nat) == Some(
                (elem_views(p.0@), p.1 as int),
            ) && p.1 <= s@.len(),
            None => sp_elems(s@, i as int, elem_views(acc@), fuel as nat) is None,
        },
    decreases fuel, 0nat,
{
    if fuel == 0 {
        return None;
    }
    let n = s.unicode_len();
    match exec_value(s, i, fuel - 1) {
        Some(p) => {
            let (v, j) = p;
            let k = exec_ws_end(s, j);
            if k < n && s.get_char(k) == ',' {
                let ghost acc0 = elem_views(acc@);
                let mut acc2 = acc;
                acc2.push(v);
                proof {
                    assert(acc2@.drop_last() =~= acc@);
                    assert(acc2@.last() == v);
                    assert(elem_views(acc2@) =~= acc0.push(v@));
                }
                exec_elems(s, k + 1, acc2, fuel - 1)
            } else if k < n && s.get_char(k) == ']' {
                let ghost acc0 = elem_views(acc@);
                let mut acc2 = acc;
                acc2.push(v);
                proof {
                    assert(acc2@.drop_last() =~= acc@);
                    assert(acc2@.last() == v);
                    assert(elem_views(acc2@) =~= acc0.push(v@));
                }
                Some((acc2, k + 1))
            } else {
                None
            }
        },
        None => None,
    }
}

/// Executable counterpart of `sp_members`.
fn exec_members(s: &str, i: usize, acc: Vec<(String, JsonValue)>, fuel: usize) -> (r: Option<
    (Vec<(String, JsonValue)>, usize),
>)
    requires
        i <= s@.len(),
    ensures
        match r {
            Some(p) => sp_members(s@, i as int, member_views(acc@), fuel as nat) == Some(
                (member_views(p.0@), p.1 as int),
            ) && p.1 <= s@.len(),
            None => sp_members(s@, i as int, member_views(acc@), fuel as nat) is None,
        },
    decreases fuel, 0nat,
{
    if fuel == 0 {
        return None;
    }
    let n = s.unicode_len();
    let k0 = exec_ws_end(s, i);
    if k0 < n && s.get_char(k0) == '"' {
        match exec_string(s, k0 + 1, String::new(), fuel - 1) {
            Some(ps) => {
                let (key, j1) = ps;
                let k1 = exec_ws_end(s, j1);
                if k1 < n && s.get_char(k1) == ':' {
                    match exec_value(s, k1 + 1, fuel - 1) {
                        Some(pv) => {
                            let (v, j2) = pv;
                            let k2 = exec_ws_end(s, j2);
                            if k2 < n && s.get_char(k2) == ',' {
                                let ghost acc0 = member_views(acc@);
                                let ghost kv = (key@, v@);
                                let mut acc2 = acc;
                                acc2.push((key, v));
                                proof {
                                    assert(acc2@.drop_last() =~= acc@);
                                    assert(acc2@.last() == (key, v));
                                    assert(member_views(acc2@) =~= acc0.push(kv));
                                }
                                exec_members(s, k2 + 1, acc2, fuel - 1)
                            } else if k2 < n && s.get_char(k2) == '}' {
                                let ghost acc0 = member_views(acc@);
                                let ghost kv = (key@, v@);
                                let mut acc2 = acc;
                                acc2.push((key, v));
                                proof {
                                    assert(acc2@.drop_last() =~= acc@);
                                    assert(acc2@.last() == (key, v));
                                    assert(member_views(acc2@) =~= acc0.push(kv));
                                }
                                Some((acc2, k2 + 1))
                            } else {
                                None
                            }
                        },
                        None => None,
                    }
                } else {
                    None
                }
            },
            None => None,
        }
    } else {
        None
    }
}

/// Parses a whole JSON body: one value with nothing but whitespace after
/// it. Returns `None` exactly where the body is malformed under the
/// payload grammar. The grammar is lenient in two ways - leading zeros
/// and literal control characters in strings are accepted - and strict in
/// one: a `\uXXXX` escape naming a surrogate code is rejected, so astral
/// characters must arrive as literal text.
pub fn parse_json(s: &str) -> (r: Option<JsonValue>)
    requires
        s@.len() < usize::MAX,
    ensures
        match r {
            Some(v) => spec_parse_json(s@) == Some(v@),
            None => spec_parse_json(s@) is None,
        },
{
    let n = s.unicode_len();
    match exec_value(s, 0, n + 1) {
        Some(p) => {
            let k = exec_ws_end(s, p.1);
            if k == n {
                Some(p.0)
            } else {
                None
            }
        },
        None => None,
    }
}

} // verus!
