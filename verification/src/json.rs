//! The textual document format: a JSON subset holding objects, strings,
//! unsigned integers below one billion, booleans and null.  This covers every
//! shape the store has ever written; arrays and fractional numbers do not
//! occur on disk and are not represented.

use vstd::prelude::*;
use crate::numeral::{dec_digit, dec_val, dec_value, is_dec_digit, pow10,
    dec_render, push_int, lemma_dec_render_digits, lemma_dec_render_value, lemma_dec_render_len};

verus! {

/// A value of the document format.
#[derive(Debug, PartialEq, Eq)]
pub enum Json {
    Null,
    Bool(bool),
    Int(u32),
    Str(Vec<char>),
    /// Key/value pairs in their textual order.
    Obj(Vec<(Vec<char>, Json)>),
}

/// The mathematical value of a [`Json`].
pub enum JsonV {
    Null,
    Bool(bool),
    Int(u32),
    Str(Seq<char>),
    Obj(Seq<(Seq<char>, JsonV)>),
}

impl Json {
    pub open spec fn v(self) -> JsonV
        decreases self, 0int,
    {
        match self {
            Json::Null => JsonV::Null,
            Json::Bool(b) => JsonV::Bool(b),
            Json::Int(n) => JsonV::Int(n),
            Json::Str(s) => JsonV::Str(s@),
            Json::Obj(m) => JsonV::Obj(members_view(m, 0)),
        }
    }
}

/// The views of the members of `m` from index `i` on.
pub open spec fn members_view(m: Vec<(Vec<char>, Json)>, i: int) -> Seq<(Seq<char>, JsonV)>
    decreases m, m@.len() - i,
{
    if i < 0 || i >= m@.len() {
        Seq::empty()
    } else {
        seq![(m@[i].0@, m@[i].1.v())] + members_view(m, i + 1)
    }
}

impl View for Json {
    type V = JsonV;

    open spec fn view(&self) -> JsonV {
        self.v()
    }
}

impl JsonV {
    /// Integers small enough for the codec: below ten to the ninth.
    pub open spec fn wf(self) -> bool
        decreases self,
    {
        match self {
            JsonV::Int(n) => n < 1_000_000_000,
            JsonV::Obj(ms) => forall|i: int| 0 <= i < ms.len() ==> (#[trigger] ms[i].1).wf(),
            _ => true,
        }
    }
}

} // verus!

verus! {

/// Facts about `members_view`: one entry per member, each the view of its
/// member.
pub proof fn lemma_members_view(m: Vec<(Vec<char>, Json)>, i: int)
    requires
        0 <= i <= m@.len(),
    ensures
        members_view(m, i).len() == m@.len() - i,
        forall|k: int| 0 <= k < m@.len() - i
            ==> members_view(m, i)[k] == (m@[i + k].0@, m@[i + k].1.v()),
    decreases m@.len() - i,
{
    if i < m@.len() {
        lemma_members_view(m, i + 1);
    }
}

/// How the codec writes one character inside a string literal: quote and
/// backslash get a backslash, other control characters a `\u00` escape, and
/// everything else stands for itself.
pub open spec fn esc_char(c: char) -> Seq<char> {
    if c == '"' {
        seq!['\\', '"']
    } else if c == '\\' {
        seq!['\\', '\\']
    } else if (c as u32) < 32 {
        seq!['\\', 'u', '0', '0',
            crate::numeral::hex_digit(c as u32 as int / 16),
            crate::numeral::hex_digit(c as u32 as int % 16)]
    } else {
        seq![c]
    }
}

pub open spec fn esc_str(t: Seq<char>) -> Seq<char>
    decreases t.len(),
{
    if t.len() == 0 {
        Seq::empty()
    } else {
        esc_char(t[0]) + esc_str(t.drop_first())
    }
}

/// Escaping distributes over appending one character.
pub proof fn lemma_esc_str_snoc(t: Seq<char>, c: char)
    ensures
        esc_str(t.push(c)) == esc_str(t) + esc_char(c),
    decreases t.len(),
{
    if t.len() == 0 {
        assert(t.push(c).len() == 1);
        assert(t.push(c)[0] == c);
        assert(t.push(c).drop_first() =~= Seq::<char>::empty());
        assert(esc_str(t.push(c)) == esc_char(c) + esc_str(Seq::<char>::empty()));
        assert(esc_str(Seq::<char>::empty()) == Seq::<char>::empty());
        assert(esc_char(c) + Seq::<char>::empty() =~= esc_char(c));
        assert(esc_str(t) == Seq::<char>::empty());
        assert(Seq::<char>::empty() + esc_char(c) =~= esc_char(c));
    } else {
        assert(t.push(c).len() == t.len() + 1);
        assert(t.push(c)[0] == t[0]);
        assert(t.push(c).drop_first() =~= t.drop_first().push(c));
        assert(esc_str(t.push(c)) == esc_char(t[0]) + esc_str(t.drop_first().push(c)));
        lemma_esc_str_snoc(t.drop_first(), c);
        assert(esc_str(t.push(c)) == esc_char(t[0]) + (esc_str(t.drop_first()) + esc_char(c)));
        assert(esc_char(t[0]) + (esc_str(t.drop_first()) + esc_char(c))
            =~= (esc_char(t[0]) + esc_str(t.drop_first())) + esc_char(c));
        assert(esc_str(t) == esc_char(t[0]) + esc_str(t.drop_first()));
    }
}

/// A string literal of the format: the escaped text between two quotes.
pub open spec fn pr_string(t: Seq<char>) -> Seq<char> {
    seq!['"'] + esc_str(t) + seq!['"']
}

/// The canonical text of a value: compact, without any blank space.
pub open spec fn pr_value(v: JsonV) -> Seq<char>
    decreases v, 0int,
{
    match v {
        JsonV::Null => seq!['n', 'u', 'l', 'l'],
        JsonV::Bool(b) => if b { seq!['t', 'r', 'u', 'e'] } else { seq!['f', 'a', 'l', 's', 'e'] },
        JsonV::Int(n) => dec_render(n as int),
        JsonV::Str(t) => pr_string(t),
        JsonV::Obj(ms) => if ms.len() == 0 {
            seq!['{', '}']
        } else {
            seq!['{'] + pr_members(ms, 0) + seq!['}']
        },
    }
}

/// The members of an object from index `i` on, comma separated.
pub open spec fn pr_members(ms: Seq<(Seq<char>, JsonV)>, i: int) -> Seq<char>
    decreases ms, ms.len() - i,
{
    if i < 0 || i >= ms.len() {
        Seq::empty()
    } else {
        pr_string(ms[i].0) + seq![':'] + pr_value(ms[i].1)
            + if i == ms.len() - 1 { Seq::<char>::empty() } else { seq![','] + pr_members(ms, i + 1) }
    }
}

} // verus!

verus! {

/// Appends the escape of one character.
fn push_esc_char(out: &mut Vec<char>, c: char) -> (nothing: ())
    ensures
        final(out)@ == old(out)@ + esc_char(c),
{
    if c == '"' {
        out.push('\\');
        out.push('"');
    } else if c == '\\' {
        out.push('\\');
        out.push('\\');
    } else if (c as u32) < 32 {
        out.push('\\');
        out.push('u');
        out.push('0');
        out.push('0');
        out.push(crate::numeral::hex_digit_exec((c as u32) / 16));
        out.push(crate::numeral::hex_digit_exec((c as u32) % 16));
    } else {
        out.push(c);
    }
    proof {
        assert(final(out)@ =~= old(out)@ + esc_char(c));
    }
}

/// Appends a string literal of the format: quote, escaped text, quote.
pub fn push_string(out: &mut Vec<char>, t: &[char]) -> (nothing: ())
    ensures
        final(out)@ == old(out)@ + pr_string(t@),
{
    out.push('"');
    let ghost mid = out@;
    let n = t.len();
    let mut i: usize = 0;
    while i < n
        invariant
            n == t@.len(),
            i <= n,
            out@ == mid + esc_str(t@.subrange(0, i as int)),
        decreases n - i,
    {
        proof {
            assert(t@.subrange(0, i + 1) =~= t@.subrange(0, i as int).push(t@[i as int]));
            lemma_esc_str_snoc(t@.subrange(0, i as int), t@[i as int]);
        }
        push_esc_char(out, t[i]);
        i = i + 1;
    }
    proof {
        assert(t@.subrange(0, n as int) =~= t@);
    }
    out.push('"');
    proof {
        assert(final(out)@ =~= old(out)@ + pr_string(t@));
    }
}

impl Json {
    /// Appends the canonical text of this value.
    pub fn render_onto(&self, out: &mut Vec<char>) -> (nothing: ())
        ensures
            final(out)@ == old(out)@ + pr_value(self@),
        decreases self, 0int,
    {
        match self {
            Json::Null => {
                out.push('n');
                out.push('u');
                out.push('l');
                out.push('l');
                proof {
                    assert(final(out)@ =~= old(out)@ + pr_value(self@));
                }
            },
            Json::Bool(b) => {
                if *b {
                    out.push('t');
                    out.push('r');
                    out.push('u');
                    out.push('e');
                } else {
                    out.push('f');
                    out.push('a');
                    out.push('l');
                    out.push('s');
                    out.push('e');
                }
                proof {
                    assert(final(out)@ =~= old(out)@ + pr_value(self@));
                }
            },
            Json::Int(n) => {
                push_int(out, *n);
            },
            Json::Str(t) => {
                push_string(out, t.as_slice());
            },
            Json::Obj(m) => {
                out.push('{');
                if m.len() == 0 {
                    proof {
                        lemma_members_view(*m, 0);
                    }
                    out.push('}');
                    proof {
                        assert(final(out)@ =~= old(out)@ + pr_value(self@));
                    }
                } else {
                    push_members(m, 0, out);
                    out.push('}');
                    proof {
                        lemma_members_view(*m, 0);
                        assert(final(out)@ =~= old(out)@ + pr_value(self@));
                    }
                }
            },
        }
    }
}

/// Appends the members of `m` from index `i` on, comma separated.
fn push_members(m: &Vec<(Vec<char>, Json)>, i: usize, out: &mut Vec<char>) -> (nothing: ())
    requires
        i < m@.len(),
    ensures
        final(out)@ == old(out)@ + pr_members(members_view(*m, 0), i as int),
    decreases m, m@.len() - i,
{
    proof {
        lemma_members_view(*m, 0);
    }
    push_string(out, m[i].0.as_slice());
    out.push(':');
    m[i].1.render_onto(out);
    if i < m.len() - 1 {
        out.push(',');
        push_members(m, i + 1, out);
        proof {
            let ms = members_view(*m, 0);
            assert(final(out)@ =~= old(out)@ + pr_members(ms, i as int));
        }
    } else {
        proof {
            let ms = members_view(*m, 0);
            assert(i == ms.len() - 1);
            assert(final(out)@ =~= old(out)@ + pr_members(ms, i as int));
        }
    }
}

} // verus!

verus! {

use crate::numeral::{dec_value_range, all_dec_digits, hex_val, is_hex_digit};
use crate::numeral::digit_run;

/// Value and consumed width of one escape or plain character at `i`, right
/// after an opening quote or a previous character; `None` at the closing
/// quote, at a bare control character, at a bad escape, or at the end.
pub open spec fn sp_str_char(s: Seq<char>, i: int) -> Option<(char, int)> {
    if i >= s.len() {
        None
    } else if s[i] == '"' {
        None
    } else if s[i] == '\\' {
        if i + 1 >= s.len() {
            None
        } else if s[i + 1] == '"' { Some(('"', 2)) }
        else if s[i + 1] == '\\' { Some(('\\', 2)) }
        else if s[i + 1] == '/' { Some(('/', 2)) }
        else if s[i + 1] == 'n' { Some(('\n', 2)) }
        else if s[i + 1] == 't' { Some(('\t', 2)) }
        else if s[i + 1] == 'r' { Some(('\r', 2)) }
        else if s[i + 1] == 'b' { Some(('\u{8}', 2)) }
        else if s[i + 1] == 'f' { Some(('\u{c}', 2)) }
        else if s[i + 1] == 'u' {
            if i + 6 > s.len() {
                None
            } else if !(is_hex_digit(s[i + 2]) && is_hex_digit(s[i + 3])
                && is_hex_digit(s[i + 4]) && is_hex_digit(s[i + 5])) {
                None
            } else {
                let code = hex_val(s[i + 2]) * 4096 + hex_val(s[i + 3]) * 256
                    + hex_val(s[i + 4]) * 16 + hex_val(s[i + 5]);
                if code < 0xD800 || (0xE000 <= code && code <= 0x10FFFF) {
                    Some(((code as u32) as char, 6))
                } else {
                    None
                }
            }
        } else {
            None
        }
    } else if (s[i] as u32) < 32 {
        None
    } else {
        Some((s[i], 1))
    }
}

/// The text of a string literal from `i` (just after the opening quote) up to
/// its closing quote, and the position after that quote.
pub open spec fn sp_str_body(s: Seq<char>, i: int) -> Option<(Seq<char>, int)>
    decreases s.len() - i when 0 <= i <= s.len()
{
    if i >= s.len() {
        None
    } else if s[i] == '"' {
        Some((Seq::empty(), i + 1))
    } else {
        match sp_str_char(s, i) {
            None => None,
            Some((c, w)) => match sp_str_body(s, i + w) {
                None => None,
                Some((t, j)) => Some((seq![c] + t, j)),
            },
        }
    }
}

/// A whole string literal at `i`: the opening quote, the body, the closing
/// quote.
pub open spec fn sp_string(s: Seq<char>, i: int) -> Option<(Seq<char>, int)> {
    if 0 <= i < s.len() && s[i] == '"' {
        sp_str_body(s, i + 1)
    } else {
        None
    }
}

/// A successful string parse moves forward and stays inside the text.
pub proof fn lemma_sp_str_body_progress(s: Seq<char>, i: int)
    requires
        0 <= i <= s.len(),
    ensures
        match sp_str_body(s, i) {
            Some((t, j)) => i < j <= s.len(),
            None => true,
        },
    decreases s.len() - i,
{
    if i < s.len() && s[i] != '"' {
        match sp_str_char(s, i) {
            None => {},
            Some((c, w)) => {
                lemma_sp_str_body_progress(s, i + w);
            },
        }
    }
}

pub proof fn lemma_sp_string_progress(s: Seq<char>, i: int)
    ensures
        match sp_string(s, i) {
            Some((t, j)) => i + 2 <= j <= s.len(),
            None => true,
        },
{
    if 0 <= i < s.len() && s[i] == '"' {
        lemma_sp_str_body_progress(s, i + 1);
    }
}

/// A number at `i`: a run of one to nine decimal digits.
pub open spec fn sp_number(s: Seq<char>, i: int) -> Option<(JsonV, int)> {
    let f = digit_run(s, i);
    if 1 <= f <= 9 {
        Some((JsonV::Int(dec_value_range(s, i, i + f) as u32), i + f))
    } else {
        None
    }
}

/// A value at `i`.  The `fuel` only bounds the nesting of objects; any fuel
/// of at least the remaining length gives the parse itself.
pub open spec fn sp_value(s: Seq<char>, i: int, fuel: nat) -> Option<(JsonV, int)>
    decreases fuel, 1int,
{
    if fuel == 0 {
        None
    } else if !(0 <= i < s.len()) {
        None
    } else if s[i] == 'n' {
        if i + 4 <= s.len() && s[i + 1] == 'u' && s[i + 2] == 'l' && s[i + 3] == 'l' {
            Some((JsonV::Null, i + 4))
        } else {
            None
        }
    } else if s[i] == 't' {
        if i + 4 <= s.len() && s[i + 1] == 'r' && s[i + 2] == 'u' && s[i + 3] == 'e' {
            Some((JsonV::Bool(true), i + 4))
        } else {
            None
        }
    } else if s[i] == 'f' {
        if i + 5 <= s.len() && s[i + 1] == 'a' && s[i + 2] == 'l' && s[i + 3] == 's'
            && s[i + 4] == 'e' {
            Some((JsonV::Bool(false), i + 5))
        } else {
            None
        }
    } else if s[i] == '"' {
        match sp_string(s, i) {
            None => None,
            Some((t, j)) => Some((JsonV::Str(t), j)),
        }
    } else if is_dec_digit(s[i]) {
        sp_number(s, i)
    } else if s[i] == '{' {
        let b = i + 1 + ws_run(s, i + 1);
        if b < s.len() && s[b] == '}' {
            Some((JsonV::Obj(Seq::empty()), b + 1))
        } else {
            match sp_members(s, b, (fuel - 1) as nat) {
                None => None,
                Some((ms, j)) => Some((JsonV::Obj(ms), j)),
            }
        }
    } else {
        None
    }
}

/// A nonempty member list at `i` (at its first key, any blank space already
/// behind), up to and with the closing `}`.  Blank space may stand around the
/// colon, the comma, and the braces, as other writers of the format put it.
pub open spec fn sp_members(s: Seq<char>, i: int, fuel: nat) -> Option<(Seq<(Seq<char>, JsonV)>, int)>
    decreases fuel, 0int,
{
    if fuel == 0 {
        None
    } else {
        match sp_string(s, i) {
            None => None,
            Some((k, j)) => {
                let jc = j + ws_run(s, j);
                if !(jc < s.len() && s[jc] == ':') {
                    None
                } else {
                    let jv = jc + 1 + ws_run(s, jc + 1);
                    match sp_value(s, jv, (fuel - 1) as nat) {
                        None => None,
                        Some((v, m)) => {
                            let mc = m + ws_run(s, m);
                            if mc < s.len() && s[mc] == ',' {
                                let nk = mc + 1 + ws_run(s, mc + 1);
                                match sp_members(s, nk, (fuel - 1) as nat) {
                                    None => None,
                                    Some((rest, e)) => Some((seq![(k, v)] + rest, e)),
                                }
                            } else if mc < s.len() && s[mc] == '}' {
                                Some((seq![(k, v)], mc + 1))
                            } else {
                                None
                            }
                        },
                    }
                }
            },
        }
    }
}

} // verus!

verus! {

/// A successful value parse moves forward and stays inside the text.
pub proof fn lemma_sp_value_progress(s: Seq<char>, i: int, fuel: nat)
    ensures
        match sp_value(s, i, fuel) {
            Some((v, j)) => i < j <= s.len(),
            None => true,
        },
    decreases fuel, 1int,
{
    if fuel > 0 && 0 <= i < s.len() {
        if s[i] == '"' {
            lemma_sp_string_progress(s, i);
        } else if is_dec_digit(s[i]) {
            lemma_digit_run_bound(s, i);
        } else if s[i] == '{' {
            lemma_ws_run_bound(s, i + 1);
            let b = i + 1 + ws_run(s, i + 1);
            if !(b < s.len() && s[b] == '}') {
                lemma_sp_members_progress(s, b, (fuel - 1) as nat);
            }
        }
    }
}

/// A successful member-list parse moves forward and stays inside the text.
pub proof fn lemma_sp_members_progress(s: Seq<char>, i: int, fuel: nat)
    ensures
        match sp_members(s, i, fuel) {
            Some((ms, j)) => i < j <= s.len(),
            None => true,
        },
    decreases fuel, 0int,
{
    if fuel > 0 {
        lemma_sp_string_progress(s, i);
        match sp_string(s, i) {
            None => {},
            Some((k, j)) => {
                lemma_ws_run_bound(s, j);
                let jc = j + ws_run(s, j);
                if jc < s.len() && s[jc] == ':' {
                    lemma_ws_run_bound(s, jc + 1);
                    let jv = jc + 1 + ws_run(s, jc + 1);
                    lemma_sp_value_progress(s, jv, (fuel - 1) as nat);
                    match sp_value(s, jv, (fuel - 1) as nat) {
                        None => {},
                        Some((v, m)) => {
                            lemma_ws_run_bound(s, m);
                            let mc = m + ws_run(s, m);
                            if mc < s.len() && s[mc] == ',' {
                                lemma_ws_run_bound(s, mc + 1);
                                lemma_sp_members_progress(s, mc + 1 + ws_run(s, mc + 1),
                                    (fuel - 1) as nat);
                            }
                        },
                    }
                }
            },
        }
    }
}

/// A digit run starting inside the text ends inside it.
pub proof fn lemma_digit_run_bound(s: Seq<char>, i: int)
    requires
        0 <= i <= s.len(),
    ensures
        0 <= digit_run(s, i),
        i + digit_run(s, i) <= s.len(),
    decreases s.len() - i,
{
    if i < s.len() && is_dec_digit(s[i]) {
        lemma_digit_run_bound(s, i + 1);
    }
}

/// Above the remaining length, the fuel does not matter.
pub proof fn lemma_sp_value_fuel(s: Seq<char>, i: int, f1: nat, f2: nat)
    requires
        0 <= i,
        s.len() - i + 1 <= f1 <= f2,
    ensures
        sp_value(s, i, f1) == sp_value(s, i, f2),
    decreases f1, 1int,
{
    if f1 > 0 && 0 <= i < s.len() {
        if s[i] == '{' {
            lemma_ws_run_bound(s, i + 1);
            let b = i + 1 + ws_run(s, i + 1);
            if !(b < s.len() && s[b] == '}') {
                lemma_sp_members_fuel(s, b, (f1 - 1) as nat, (f2 - 1) as nat);
            }
        }
    }
}

pub proof fn lemma_sp_members_fuel(s: Seq<char>, i: int, f1: nat, f2: nat)
    requires
        0 <= i,
        s.len() - i <= f1 <= f2,
    ensures
        sp_members(s, i, f1) == sp_members(s, i, f2),
    decreases f1, 0int,
{
    if f1 > 0 {
        lemma_sp_string_progress(s, i);
        match sp_string(s, i) {
            None => {},
            Some((k, j)) => {
                lemma_ws_run_bound(s, j);
                let jc = j + ws_run(s, j);
                if jc < s.len() && s[jc] == ':' {
                    lemma_ws_run_bound(s, jc + 1);
                    let jv = jc + 1 + ws_run(s, jc + 1);
                    lemma_sp_value_fuel(s, jv, (f1 - 1) as nat, (f2 - 1) as nat);
                    lemma_sp_value_progress(s, jv, (f1 - 1) as nat);
                    match sp_value(s, jv, (f1 - 1) as nat) {
                        None => {},
                        Some((v, m)) => {
                            lemma_ws_run_bound(s, m);
                            let mc = m + ws_run(s, m);
                            if mc < s.len() && s[mc] == ',' {
                                lemma_ws_run_bound(s, mc + 1);
                                lemma_sp_members_fuel(s, mc + 1 + ws_run(s, mc + 1),
                                    (f1 - 1) as nat, (f2 - 1) as nat);
                            }
                        },
                    }
                }
            },
        }
    }
}

/// Fuel enough for any text: the remaining length plus one.
pub open spec fn std_fuel(s: Seq<char>, i: int) -> nat {
    if i <= s.len() { (s.len() - i + 1) as nat } else { 1 }
}

/// The parse of a value at `i`, at the standard fuel.
pub open spec fn j_parse_value(s: Seq<char>, i: int) -> Option<(JsonV, int)> {
    sp_value(s, i, std_fuel(s, i))
}

/// The parse of a member list at `i`, at the standard fuel.
pub open spec fn j_parse_members(s: Seq<char>, i: int) -> Option<(Seq<(Seq<char>, JsonV)>, int)> {
    sp_members(s, i, std_fuel(s, i))
}

} // verus!

verus! {

use crate::numeral::{hex_val_exec, dec_val_exec, read_number, lemma_digit_run};

/// Reads one escape or plain character inside a string literal.
fn parse_str_char(s: &[char], i: usize) -> (r: Option<(char, usize)>)
    requires
        i <= s@.len(),
    ensures
        match r {
            Some((c, w)) => sp_str_char(s@, i as int) == Some((c, w as int)) && 1 <= w <= 6
                && i + w <= s@.len(),
            None => sp_str_char(s@, i as int) is None,
        },
{
    if i >= s.len() {
        return None;
    }
    let c = s[i];
    if c == '"' {
        None
    } else if c == '\\' {
        if i + 1 >= s.len() {
            return None;
        }
        let e = s[i + 1];
        if e == '"' { Some(('"', 2)) }
        else if e == '\\' { Some(('\\', 2)) }
        else if e == '/' { Some(('/', 2)) }
        else if e == 'n' { Some(('\n', 2)) }
        else if e == 't' { Some(('\t', 2)) }
        else if e == 'r' { Some(('\r', 2)) }
        else if e == 'b' { Some(('\u{8}', 2)) }
        else if e == 'f' { Some(('\u{c}', 2)) }
        else if e == 'u' {
            if s.len() - (i + 1) < 5 {
                proof {
                    assert(i + 6 > s@.len());
                }
                return None;
            }
            let h1 = hex_val_exec(s[i + 2]);
            let h2 = hex_val_exec(s[i + 3]);
            let h3 = hex_val_exec(s[i + 4]);
            let h4 = hex_val_exec(s[i + 5]);
            if h1 >= 16 || h2 >= 16 || h3 >= 16 || h4 >= 16 {
                return None;
            }
            let code: u32 = h1 * 4096 + h2 * 256 + h3 * 16 + h4;
            match char::from_u32(code) {
                Some(u) => Some((u, 6)),
                None => None,
            }
        } else {
            None
        }
    } else if (c as u32) < 32 {
        None
    } else {
        Some((c, 1))
    }
}

/// Reads a string literal body up to and with its closing quote.
fn parse_str_body(s: &[char], i: usize) -> (r: Option<(Vec<char>, usize)>)
    requires
        i <= s@.len(),
    ensures
        match r {
            Some((t, j)) => sp_str_body(s@, i as int) == Some((t@, j as int))
                && i < j <= s@.len(),
            None => sp_str_body(s@, i as int) is None,
        },
{
    let mut acc: Vec<char> = Vec::new();
    let mut p: usize = i;
    loop
        invariant
            i <= p <= s@.len(),
            forall|t: Seq<char>, j: int|
                sp_str_body(s@, p as int) == Some((t, j))
                    ==> sp_str_body(s@, i as int) == Some((acc@ + t, j)),
            sp_str_body(s@, p as int) is None ==> sp_str_body(s@, i as int) is None,
        decreases s@.len() - p,
    {
        if p >= s.len() {
            return None;
        }
        if s[p] == '"' {
            proof {
                assert(sp_str_body(s@, p as int) == Some((Seq::<char>::empty(), p + 1)));
                assert(acc@ + Seq::<char>::empty() =~= acc@);
            }
            return Some((acc, p + 1));
        }
        match parse_str_char(s, p) {
            None => {
                return None;
            },
            Some((c, w)) => {
                proof {
                    lemma_sp_str_body_progress(s@, p + w);
                    assert forall|t: Seq<char>, j: int|
                        sp_str_body(s@, (p + w) as int) == Some((t, j))
                            implies sp_str_body(s@, i as int) == Some((acc@.push(c) + t, j)) by {
                        assert(sp_str_body(s@, p as int) == Some((seq![c] + t, j)));
                        assert(acc@ + (seq![c] + t) =~= acc@.push(c) + t);
                    };
                }
                acc.push(c);
                p = p + w;
            },
        }
    }
}

/// Reads a whole string literal at `i`.
fn parse_string(s: &[char], i: usize) -> (r: Option<(Vec<char>, usize)>)
    requires
        i <= s@.len(),
    ensures
        match r {
            Some((t, j)) => sp_string(s@, i as int) == Some((t@, j as int))
                && i + 2 <= j <= s@.len(),
            None => sp_string(s@, i as int) is None,
        },
{
    if i < s.len() && s[i] == '"' {
        let r = parse_str_body(s, i + 1);
        proof {
            lemma_sp_str_body_progress(s@, i + 1);
        }
        r
    } else {
        None
    }
}

} // verus!

verus! {

/// Reads one value at `i`.
pub fn parse_value(s: &[char], i: usize) -> (r: Option<(Json, usize)>)
    requires
        i <= s@.len(),
    ensures
        match r {
            Some((j, n)) => j_parse_value(s@, i as int) == Some((j@, n as int))
                && i < n <= s@.len(),
            None => j_parse_value(s@, i as int) is None,
        },
    decreases s@.len() - i, 1int,
{
    let ghost fuel = std_fuel(s@, i as int);
    if i >= s.len() {
        return None;
    }
    let c = s[i];
    if c == 'n' {
        if s.len() - i >= 4 && s[i + 1] == 'u' && s[i + 2] == 'l' && s[i + 3] == 'l' {
            Some((Json::Null, i + 4))
        } else {
            None
        }
    } else if c == 't' {
        if s.len() - i >= 4 && s[i + 1] == 'r' && s[i + 2] == 'u' && s[i + 3] == 'e' {
            Some((Json::Bool(true), i + 4))
        } else {
            None
        }
    } else if c == 'f' {
        if s.len() - i >= 5 && s[i + 1] == 'a' && s[i + 2] == 'l' && s[i + 3] == 's'
            && s[i + 4] == 'e' {
            Some((Json::Bool(false), i + 5))
        } else {
            None
        }
    } else if c == '"' {
        match parse_string(s, i) {
            Some((t, j)) => Some((Json::Str(t), j)),
            None => None,
        }
    } else if dec_val_exec(c) < 10 {
        let n = s.len();
        let mut f: usize = 0;
        while i + f < n && dec_val_exec(s[i + f]) < 10
            invariant
                n == s@.len(),
                i <= n,
                i + f <= n,
                crate::numeral::all_dec_digits(s@, i as int, i + f),
            decreases n - (i + f),
        {
            assert(is_dec_digit(s@[i + f as int]));
            f = f + 1;
            assert forall|k: int| i <= k < i + f implies is_dec_digit(#[trigger] s@[k]) by {};
        }
        proof {
            lemma_digit_run(s@, i as int, f as int);
        }
        if f > 9 {
            return None;
        }
        let v = match read_number(s, i, i + f) {
            Some(v) => v,
            None => { proof { assert(false); } return None; }
        };
        proof {
            reveal_with_fuel(pow10, 10);
        }
        Some((Json::Int(v), i + f))
    } else if c == '{' {
        let b = skip_ws(s, i + 1);
        if b < s.len() && s[b] == '}' {
            let m: Vec<(Vec<char>, Json)> = Vec::new();
            proof {
                lemma_members_view(m, 0);
                assert(members_view(m, 0) =~= Seq::<(Seq<char>, JsonV)>::empty());
            }
            Some((Json::Obj(m), b + 1))
        } else {
            proof {
                lemma_sp_members_fuel(s@, b as int, std_fuel(s@, b as int), (fuel - 1) as nat);
            }
            match parse_members(s, b) {
                Some((m, e)) => Some((Json::Obj(m), e)),
                None => None,
            }
        }
    } else {
        None
    }
}

/// Reads a nonempty member list at `i`, up to and with the closing brace.
fn parse_members(s: &[char], i: usize) -> (r: Option<(Vec<(Vec<char>, Json)>, usize)>)
    requires
        i <= s@.len(),
    ensures
        match r {
            Some((m, e)) => j_parse_members(s@, i as int) == Some((members_view(m, 0), e as int))
                && i < e <= s@.len(),
            None => j_parse_members(s@, i as int) is None,
        },
    decreases s@.len() - i, 0int,
{
    let ghost fuel = std_fuel(s@, i as int);
    let (k, j) = match parse_string(s, i) {
        Some(r) => r,
        None => { return None; },
    };
    let jc = skip_ws(s, j);
    if !(jc < s.len() && s[jc] == ':') {
        return None;
    }
    let jv = skip_ws(s, jc + 1);
    proof {
        lemma_sp_value_fuel(s@, jv as int, std_fuel(s@, jv as int), (fuel - 1) as nat);
    }
    let (v, m) = match parse_value(s, jv) {
        Some(r) => r,
        None => { return None; },
    };
    let mc = skip_ws(s, m);
    if mc < s.len() && s[mc] == ',' {
        let nk = skip_ws(s, mc + 1);
        proof {
            lemma_sp_members_fuel(s@, nk as int, std_fuel(s@, nk as int), (fuel - 1) as nat);
        }
        match parse_members(s, nk) {
            Some((rest, e)) => {
                let mut out = rest;
                out.insert(0, (k, v));
                proof {
                    lemma_members_view(out, 0);
                    lemma_members_view(rest, 0);
                    assert(members_view(out, 0) =~=
                        seq![(k@, v@)] + members_view(rest, 0));
                }
                Some((out, e))
            },
            None => None,
        }
    } else if mc < s.len() && s[mc] == '}' {
        let mut out: Vec<(Vec<char>, Json)> = Vec::new();
        out.push((k, v));
        proof {
            lemma_members_view(out, 0);
            assert(members_view(out, 0) =~= seq![(k@, v@)]);
        }
        Some((out, mc + 1))
    } else {
        None
    }
}

} // verus!

verus! {

use crate::numeral::{lemma_hex_digit_val, lemma_dec_digit_val};

/// Position `p` carries no digit: the end of the text, or another character.
pub open spec fn not_digit_at(s: Seq<char>, p: int) -> bool {
    p == s.len() || (p < s.len() && !is_dec_digit(s[p]))
}

/// Reading at the start of a rendered escape gives back the character.
proof fn lemma_rt_esc_char(s: Seq<char>, i: int, c: char)
    requires
        0 <= i,
        i + esc_char(c).len() <= s.len(),
        s.subrange(i, i + esc_char(c).len()) == esc_char(c),
    ensures
        sp_str_char(s, i) == Some((c, esc_char(c).len() as int)),
{
    let e = esc_char(c);
    assert forall|k: int| 0 <= k < e.len() implies s[i + k] == e[k] by {
        assert(s.subrange(i, i + e.len())[k] == s[i + k]);
    };
    if c == '"' {
        assert(s[i] == '\\' && s[i + 1] == '"');
    } else if c == '\\' {
        assert(s[i] == '\\' && s[i + 1] == '\\');
    } else if (c as u32) < 32 {
        assert(s[i] == '\\' && s[i + 1] == 'u' && s[i + 2] == '0' && s[i + 3] == '0');
        let hi = (c as u32) as int / 16;
        let lo = (c as u32) as int % 16;
        lemma_hex_digit_val(hi);
        lemma_hex_digit_val(lo);
        assert(s[i + 4] == crate::numeral::hex_digit(hi));
        assert(s[i + 5] == crate::numeral::hex_digit(lo));
        assert(hex_val('0') == 0);
        let code = hex_val(s[i + 2]) * 4096 + hex_val(s[i + 3]) * 256
            + hex_val(s[i + 4]) * 16 + hex_val(s[i + 5]);
        assert(code == hi * 16 + lo);
        assert(code == c as u32);
        assert(code < 0xD800);
        vstd::utf8::char_u32_cast(c, c as u32);
        assert(((code as u32) as char) == c);
    } else {
        assert(esc_char(c) == seq![c]);
        assert(esc_char(c)[0] == c);
        assert(s[i + 0] == esc_char(c)[0]);
        assert(s[i] == c);
    }
}

/// Reading at the start of an escaped text followed by a closing quote gives
/// back the text.
proof fn lemma_rt_str_body(s: Seq<char>, i: int, t: Seq<char>)
    requires
        0 <= i,
        i + esc_str(t).len() < s.len(),
        s.subrange(i, i + esc_str(t).len()) == esc_str(t),
        s[i + esc_str(t).len()] == '"',
    ensures
        sp_str_body(s, i) == Some((t, i + esc_str(t).len() + 1)),
    decreases t.len(),
{
    if t.len() == 0 {
        assert(esc_str(t).len() == 0);
        assert(s[i] == '"');
    } else {
        let e0 = esc_char(t[0]);
        let rest = esc_str(t.drop_first());
        assert(esc_str(t) == e0 + rest);
        assert forall|k: int| 0 <= k < esc_str(t).len() implies s[i + k] == esc_str(t)[k] by {
            assert(s.subrange(i, i + esc_str(t).len())[k] == s[i + k]);
        };
        assert(s.subrange(i, i + e0.len()) =~= e0);
        lemma_rt_esc_char(s, i, t[0]);
        assert(e0.len() >= 1);
        assert(e0[0] != '"') by {
            if t[0] == '"' || t[0] == '\\' || (t[0] as u32) < 32 {
            } else {
            }
        };
        assert(s[i] == e0[0]);
        assert forall|k: int| 0 <= k < rest.len()
            implies s.subrange(i + e0.len(), i + esc_str(t).len())[k] == rest[k] by {
            assert(s[i + (e0.len() + k)] == esc_str(t)[e0.len() + k]);
            assert(esc_str(t)[e0.len() + k] == rest[k]);
        };
        assert(s.subrange(i + e0.len(), i + esc_str(t).len()) =~= rest);
        lemma_rt_str_body(s, i + e0.len(), t.drop_first());
        assert(sp_str_body(s, i) == Some((seq![t[0]] + t.drop_first(), i + esc_str(t).len() + 1)));
        assert(seq![t[0]] + t.drop_first() =~= t);
    }
}

/// Reading at the start of a rendered string literal gives back the text.
proof fn lemma_rt_string(s: Seq<char>, i: int, t: Seq<char>)
    requires
        0 <= i,
        i + pr_string(t).len() <= s.len(),
        s.subrange(i, i + pr_string(t).len()) == pr_string(t),
    ensures
        sp_string(s, i) == Some((t, i + pr_string(t).len())),
        s[i] == '"',
    decreases t.len(),
{
    let p = pr_string(t);
    assert forall|k: int| 0 <= k < p.len() implies s[i + k] == p[k] by {
        assert(s.subrange(i, i + p.len())[k] == s[i + k]);
    };
    assert(p[0] == '"');
    assert(s[i] == '"');
    assert(p[p.len() - 1] == '"') by {
        assert(p.len() == esc_str(t).len() + 2);
        assert(p == seq!['"'] + esc_str(t) + seq!['"']);
    };
    assert forall|k: int| 0 <= k < esc_str(t).len()
        implies s.subrange(i + 1, i + 1 + esc_str(t).len())[k] == esc_str(t)[k] by {
        assert(s[i + (1 + k)] == p[1 + k]);
        assert(p[1 + k] == esc_str(t)[k]);
    };
    assert(s.subrange(i + 1, i + 1 + esc_str(t).len()) =~= esc_str(t));
    assert(s[i + 1 + esc_str(t).len()] == '"');
    lemma_rt_str_body(s, i + 1, t);
}

} // verus!

verus! {

/// Reading at the start of a rendered value, with nothing that could extend a
/// number right behind it, gives back the value.
pub proof fn lemma_rt_value(s: Seq<char>, i: int, v: JsonV)
    requires
        v.wf(),
        0 <= i,
        i + pr_value(v).len() <= s.len(),
        s.subrange(i, i + pr_value(v).len()) == pr_value(v),
        v is Int ==> not_digit_at(s, i + pr_value(v).len()),
    ensures
        j_parse_value(s, i) == Some((v, i + pr_value(v).len())),
    decreases v, 0int, 0int,
{
    let p = pr_value(v);
    assert forall|k: int| 0 <= k < p.len() implies s[i + k] == p[k] by {
        assert(s.subrange(i, i + p.len())[k] == s[i + k]);
    };
    let fuel = std_fuel(s, i);
    match v {
        JsonV::Null => {
            assert(s[i + 0] == p[0] && s[i + 1] == p[1] && s[i + 2] == p[2] && s[i + 3] == p[3]);
            assert(s[i] == 'n' && s[i + 1] == 'u' && s[i + 2] == 'l' && s[i + 3] == 'l');
            assert(j_parse_value(s, i) == Some((v, i + pr_value(v).len())));
        },
        JsonV::Bool(b) => {
            if b {
                assert(s[i + 0] == p[0] && s[i + 1] == p[1] && s[i + 2] == p[2] && s[i + 3] == p[3]);
                assert(s[i] == 't' && s[i + 1] == 'r' && s[i + 2] == 'u' && s[i + 3] == 'e');
            } else {
                assert(s[i + 0] == p[0] && s[i + 1] == p[1] && s[i + 2] == p[2] && s[i + 3] == p[3]
                    && s[i + 4] == p[4]);
                assert(s[i] == 'f' && s[i + 1] == 'a' && s[i + 2] == 'l' && s[i + 3] == 's'
                    && s[i + 4] == 'e');
            }
            assert(j_parse_value(s, i) == Some((v, i + pr_value(v).len())));
        },
        JsonV::Str(t) => {
            lemma_rt_string(s, i, t);
            assert(j_parse_value(s, i) == Some((v, i + pr_value(v).len())));
        },
        JsonV::Int(n) => {
            lemma_dec_render_digits(n as int);
            assert(is_dec_digit(s[i])) by {
                assert(s[i + 0] == p[0]);
            };
            assert(all_dec_digits(s, i, i + p.len())) by {
                assert forall|k: int| i <= k < i + p.len()
                    implies is_dec_digit(#[trigger] s[k]) by {
                    assert(s[k] == p[k - i]);
                };
            };
            lemma_digit_run(s, i, p.len() as int);
            reveal_with_fuel(pow10, 10);
            lemma_dec_render_len(n as int, 9);
            lemma_dec_render_value(n as int);
            assert(s.subrange(i, i + p.len()) == dec_render(n as int));
            assert(dec_value_range(s, i, i + p.len()) == n);
            assert(j_parse_value(s, i) == Some((v, i + pr_value(v).len())));
        },
        JsonV::Obj(ms) => {
            if ms.len() == 0 {
                assert(p[0] == '{' && p[1] == '}');
                assert(s[i + 0] == p[0]);
                assert(s[i + 1] == p[1]);
                assert(s[i] == '{');
                assert(s[i + 1] == '}');
                assert(ms =~= Seq::<(Seq<char>, JsonV)>::empty());
                assert(j_parse_value(s, i) == Some((v, i + pr_value(v).len())));
            } else {
                let pm = pr_members(ms, 0);
                assert(p == seq!['{'] + pm + seq!['}']);
                assert(p[0] == '{');
                assert(s[i + 0] == p[0]);
                assert(s[i] == '{');
                assert(pm[0] == pr_string(ms[0].0)[0]) by {
                    assert(pm == pr_string(ms[0].0) + seq![':'] + pr_value(ms[0].1)
                        + if 0 == ms.len() - 1 { Seq::<char>::empty() }
                          else { seq![','] + pr_members(ms, 1) });
                };
                assert(pm[0] == '"');
                assert(p[1] == pm[0]);
                assert(s[i + 1] == p[1]);
                assert(s[i + 1] == '"');
                assert(s.subrange(i + 1, i + 1 + pm.len()) =~= pm) by {
                    assert forall|k: int| 0 <= k < pm.len()
                        implies s.subrange(i + 1, i + 1 + pm.len())[k] == pm[k] by {
                        assert(s[i + (1 + k)] == p[1 + k]);
                        assert(p[1 + k] == pm[k]);
                    };
                };
                assert(s[i + 1 + pm.len()] == '}') by {
                    assert(s[i + (1 + pm.len() as int)] == p[1 + pm.len() as int]);
                };
                lemma_rt_members(s, i + 1, ms, 0);
                assert(ms.subrange(0, ms.len() as int) =~= ms);
                lemma_sp_members_fuel(s, i + 1, std_fuel(s, i + 1), (fuel - 1) as nat);
                assert(j_parse_value(s, i) == Some((v, i + pr_value(v).len())));
            }
        },
    }
}

/// Reading at the start of rendered members `idx` on, with the closing brace
/// right behind them, gives back those members.
proof fn lemma_rt_members(s: Seq<char>, i: int, ms: Seq<(Seq<char>, JsonV)>, idx: int)
    requires
        0 <= idx < ms.len(),
        forall|k: int| 0 <= k < ms.len() ==> (#[trigger] ms[k].1).wf(),
        0 <= i,
        i + pr_members(ms, idx).len() < s.len(),
        s.subrange(i, i + pr_members(ms, idx).len()) == pr_members(ms, idx),
        s[i + pr_members(ms, idx).len()] == '}',
    ensures
        j_parse_members(s, i)
            == Some((ms.subrange(idx, ms.len() as int), i + pr_members(ms, idx).len() + 1)),
    decreases ms, ms.len() - idx, 1int,
{
    let p = pr_members(ms, idx);
    let key = ms[idx].0;
    let v0 = ms[idx].1;
    let ps = pr_string(key);
    let pv = pr_value(v0);
    let ls = ps.len() as int;
    let lv = pv.len() as int;
    assert forall|k: int| 0 <= k < p.len() implies s[i + k] == p[k] by {
        assert(s.subrange(i, i + p.len())[k] == s[i + k]);
    };
    let fuel = std_fuel(s, i);

    assert(s.subrange(i, i + ls) =~= ps) by {
        assert forall|k: int| 0 <= k < ls implies s.subrange(i, i + ls)[k] == ps[k] by {
            assert(s[i + k] == p[k]);
        };
    };
    lemma_rt_string(s, i, key);
    assert(p == ps + seq![':'] + pv
        + if idx == ms.len() - 1 { Seq::<char>::empty() } else { seq![','] + pr_members(ms, idx + 1) });
    assert(p[ls] == ':');
    assert(s[i + ls] == p[ls]);
    assert(s[i + ls] == ':');

    assert(s.subrange(i + ls + 1, i + ls + 1 + lv) =~= pv) by {
        assert forall|k: int| 0 <= k < lv
            implies s.subrange(i + ls + 1, i + ls + 1 + lv)[k] == pv[k] by {
            assert(s[i + (ls + 1 + k)] == p[ls + 1 + k]);
        };
    };
    let m = i + ls + 1 + lv;
    if idx == ms.len() - 1 {
        assert(p.len() == ls + 1 + lv);
        assert(s[m] == '}');
        assert(not_digit_at(s, m));
        lemma_rt_value(s, i + ls + 1, v0);
        lemma_sp_value_fuel(s, i + ls + 1, std_fuel(s, i + ls + 1), (fuel - 1) as nat);
        assert(ms.subrange(idx, ms.len() as int) =~= seq![(key, v0)]);
    } else {
        let pm2 = pr_members(ms, idx + 1);
        assert(p == ps + seq![':'] + pv + seq![','] + pm2);
        assert(s[m] == ',') by {
            assert(s[i + (ls + 1 + lv)] == p[ls + 1 + lv]);
        };
        assert(not_digit_at(s, m));
        lemma_rt_value(s, i + ls + 1, v0);
        lemma_sp_value_fuel(s, i + ls + 1, std_fuel(s, i + ls + 1), (fuel - 1) as nat);
        assert(s.subrange(m + 1, m + 1 + pm2.len()) =~= pm2) by {
            assert forall|k: int| 0 <= k < pm2.len()
                implies s.subrange(m + 1, m + 1 + pm2.len())[k] == pm2[k] by {
                assert(s[i + (ls + 1 + lv + 1 + k)] == p[ls + 1 + lv + 1 + k]);
            };
        };
        assert(s[m + 1 + pm2.len()] == '}') by {
            assert(s[i + (ls + 1 + lv + 1 + pm2.len())] == s[i + p.len()]);
        };
        lemma_rt_members(s, m + 1, ms, idx + 1);
        lemma_sp_members_fuel(s, m + 1, std_fuel(s, m + 1), (fuel - 1) as nat);
        assert(seq![(key, v0)] + ms.subrange(idx + 1, ms.len() as int)
            =~= ms.subrange(idx, ms.len() as int));
    }
}

} // verus!

verus! {

use crate::chars::{chars_eq_str, str_to_chars};

/// First index at or after `i` whose key is `key`; the length when none is.
pub open spec fn key_index_from(ms: Seq<(Seq<char>, JsonV)>, key: Seq<char>, i: int) -> int
    decreases ms.len() - i when 0 <= i <= ms.len()
{
    if i >= ms.len() {
        ms.len() as int
    } else if ms[i].0 == key {
        i
    } else {
        key_index_from(ms, key, i + 1)
    }
}

pub open spec fn key_index(ms: Seq<(Seq<char>, JsonV)>, key: Seq<char>) -> int {
    key_index_from(ms, key, 0)
}

/// The value under the first member named `key`.
pub open spec fn obj_get(ms: Seq<(Seq<char>, JsonV)>, key: Seq<char>) -> Option<JsonV> {
    if key_index(ms, key) < ms.len() {
        Some(ms[key_index(ms, key)].1)
    } else {
        None
    }
}

pub open spec fn obj_has(ms: Seq<(Seq<char>, JsonV)>, key: Seq<char>) -> bool {
    obj_get(ms, key) is Some
}

/// `ms` with the first member named `key` replaced, or with `(key, v)`
/// appended when none is named so.
pub open spec fn obj_set(ms: Seq<(Seq<char>, JsonV)>, key: Seq<char>, v: JsonV)
    -> Seq<(Seq<char>, JsonV)> {
    if key_index(ms, key) < ms.len() {
        ms.update(key_index(ms, key), (key, v))
    } else {
        ms.push((key, v))
    }
}

/// What `key_index_from` finds: in range, a hit, and nothing earlier.
pub proof fn lemma_key_index_from(ms: Seq<(Seq<char>, JsonV)>, key: Seq<char>, i: int)
    requires
        0 <= i <= ms.len(),
    ensures
        i <= key_index_from(ms, key, i) <= ms.len(),
        key_index_from(ms, key, i) < ms.len() ==> ms[key_index_from(ms, key, i)].0 == key,
        forall|k: int| i <= k < key_index_from(ms, key, i) ==> (#[trigger] ms[k]).0 != key,
    decreases ms.len() - i,
{
    if i < ms.len() && ms[i].0 != key {
        lemma_key_index_from(ms, key, i + 1);
    }
}

/// Looking a key up after setting it gives the new value; other keys see no
/// change.
pub proof fn lemma_obj_set_get(ms: Seq<(Seq<char>, JsonV)>, key: Seq<char>, v: JsonV)
    ensures
        obj_get(obj_set(ms, key, v), key) == Some(v),
        forall|other: Seq<char>| other != key
            ==> #[trigger] obj_get(obj_set(ms, key, v), other) == obj_get(ms, other),
{
    lemma_key_index_from(ms, key, 0);
    let ki = key_index(ms, key);
    let out = obj_set(ms, key, v);
    assert(out[ki] == (key, v));
    lemma_key_index_from(out, key, 0);
    assert(key_index(out, key) == ki) by {
        lemma_key_index_stable(ms, out, key, 0, ki);
    };
    assert forall|other: Seq<char>| other != key
        implies #[trigger] obj_get(out, other) == obj_get(ms, other) by {
        lemma_key_index_other(ms, out, other, key, ki, 0);
        lemma_key_index_from(ms, other, 0);
        lemma_key_index_from(out, other, 0);
    };
}

/// Two member lists equal below `stop` except that one has `key` at `stop`
/// itself have the same search result for `key` up to `stop`.
proof fn lemma_key_index_stable(
    ms: Seq<(Seq<char>, JsonV)>,
    out: Seq<(Seq<char>, JsonV)>,
    key: Seq<char>,
    i: int,
    ki: int,
)
    requires
        0 <= i <= ki <= ms.len(),
        ki <= out.len(),
        ki < out.len() ==> out[ki].0 == key,
        ki == ms.len() ==> ki < out.len(),
        forall|k: int| 0 <= k < ki ==> (#[trigger] ms[k]).0 != key,
        forall|k: int| 0 <= k < ki ==> (#[trigger] out[k]).0 == ms[k].0,
    ensures
        key_index_from(out, key, i) == ki,
    decreases ms.len() - i,
{
    if i < ki {
        lemma_key_index_stable(ms, out, key, i + 1, ki);
    }
}

/// A key different from the one set finds the same member as before.
proof fn lemma_key_index_other(
    ms: Seq<(Seq<char>, JsonV)>,
    out: Seq<(Seq<char>, JsonV)>,
    other: Seq<char>,
    key: Seq<char>,
    ki: int,
    i: int,
)
    requires
        other != key,
        0 <= i <= ms.len(),
        ms.len() <= out.len() <= ms.len() + 1,
        out.len() == ms.len() ==> ki < ms.len() && ms[ki].0 == key,
        out.len() == ms.len() + 1 ==> (ki == ms.len() && out[ki].0 == key),
        forall|k: int| 0 <= k < out.len() ==> (#[trigger] out[k]).0
            == (if k == ki { key } else { ms[k].0 }),
        forall|k: int| 0 <= k < out.len() ==> k != ki ==> (#[trigger] out[k]).1 == ms[k].1,
    ensures
        key_index_from(out, other, i) == key_index_from(ms, other, i)
            || (key_index_from(ms, other, i) == ms.len() && key_index_from(out, other, i) == out.len()),
        key_index_from(out, other, i) < out.len() && key_index_from(out, other, i) < ms.len()
            ==> out[key_index_from(out, other, i)].1 == ms[key_index_from(out, other, i)].1,
    decreases ms.len() - i,
{
    if i < ms.len() {
        assert(out[i].0 == (if i == ki { key } else { ms[i].0 }));
        if ms[i].0 == other && i != ki {
            assert(key_index_from(ms, other, i) == i);
            assert(key_index_from(out, other, i) == i);
        } else {
            lemma_key_index_other(ms, out, other, key, ki, i + 1);
        }
    } else {
        assert(key_index_from(ms, other, i) == ms.len());
        if out.len() == ms.len() {
            assert(key_index_from(out, other, i) == out.len());
        } else {
            assert(i == ms.len() && i == ki && i < out.len());
            assert(out[i].0 == key);
            assert(key_index_from(out, other, i) == key_index_from(out, other, i + 1));
            assert(key_index_from(out, other, i + 1) == out.len());
        }
    }
}

} // verus!

verus! {

/// Index of the first member named `key`, when any is.
pub fn members_index(m: &Vec<(Vec<char>, Json)>, key: &str) -> (r: Option<usize>)
    ensures
        match r {
            Some(idx) => idx < m@.len() && key_index(members_view(*m, 0), key@) == idx,
            None => key_index(members_view(*m, 0), key@) == members_view(*m, 0).len(),
        },
{
    proof {
        lemma_members_view(*m, 0);
    }
    let ghost ms = members_view(*m, 0);
    let n = m.len();
    let mut i: usize = 0;
    while i < n
        invariant
            n == m@.len(),
            i <= n,
            ms == members_view(*m, 0),
            ms.len() == n,
            forall|k: int| 0 <= k < i ==> (#[trigger] ms[k]).0 != key@,
            key_index_from(ms, key@, 0) == key_index_from(ms, key@, i as int),
        decreases n - i,
    {
        proof {
            lemma_members_view(*m, 0);
        }
        if chars_eq_str(&m[i].0, key) {
            proof {
                assert(ms[i as int].0 == key@);
            }
            return Some(i);
        }
        i = i + 1;
    }
    None
}

pub fn members_has(m: &Vec<(Vec<char>, Json)>, key: &str) -> (r: bool)
    ensures
        r == obj_has(members_view(*m, 0), key@),
{
    proof {
        lemma_members_view(*m, 0);
    }
    match members_index(m, key) {
        Some(_) => true,
        None => false,
    }
}

/// A reference to the value under the first member named `key`.
pub fn members_get<'a>(m: &'a Vec<(Vec<char>, Json)>, key: &str) -> (r: Option<&'a Json>)
    ensures
        match r {
            Some(j) => obj_get(members_view(*m, 0), key@) == Some(j@),
            None => obj_get(members_view(*m, 0), key@) is None,
        },
{
    proof {
        lemma_members_view(*m, 0);
    }
    match members_index(m, key) {
        Some(idx) => Some(&m[idx].1),
        None => None,
    }
}

/// Replaces the first member named `key`, or appends one.
pub fn members_set(m: &mut Vec<(Vec<char>, Json)>, key: &str, v: Json) -> (nothing: ())
    ensures
        members_view(*final(m), 0) == obj_set(members_view(*old(m), 0), key@, v@),
{
    proof {
        lemma_members_view(*m, 0);
    }
    let ghost ms = members_view(*old(m), 0);
    let kc = str_to_chars(key);
    match members_index(m, key) {
        Some(idx) => {
            m.set(idx, (kc, v));
            proof {
                lemma_members_view(*final(m), 0);
                assert(members_view(*final(m), 0) =~= obj_set(ms, key@, v@));
            }
        },
        None => {
            m.push((kc, v));
            proof {
                lemma_members_view(*final(m), 0);
                assert(members_view(*final(m), 0) =~= obj_set(ms, key@, v@));
            }
        },
    }
}

} // verus!

verus! {

/// Whether `c` is blank space between a document and the edges of its file.
pub open spec fn is_ws(c: char) -> bool {
    c == ' ' || c == '\t' || c == '\n' || c == '\r'
}

/// Number of consecutive blank characters of `s` from position `i` on.
pub open spec fn ws_run(s: Seq<char>, i: int) -> int
    decreases s.len() - i when 0 <= i <= s.len()
{
    if i >= s.len() || !is_ws(s[i]) {
        0
    } else {
        1 + ws_run(s, i + 1)
    }
}

/// A blank run starting inside the text ends inside it.
pub proof fn lemma_ws_run_bound(s: Seq<char>, i: int)
    requires
        0 <= i <= s.len(),
    ensures
        0 <= ws_run(s, i),
        i + ws_run(s, i) <= s.len(),
    decreases s.len() - i,
{
    if i < s.len() && is_ws(s[i]) {
        lemma_ws_run_bound(s, i + 1);
    }
}

/// The position after the blank run at `i`.
pub fn skip_ws(s: &[char], i: usize) -> (r: usize)
    requires
        i <= s@.len(),
    ensures
        r == i + ws_run(s@, i as int),
        i <= r <= s@.len(),
{
    proof {
        lemma_ws_run_bound(s@, i as int);
    }
    let mut p: usize = i;
    while p < s.len() && (s[p] == ' ' || s[p] == '\t' || s[p] == '\n' || s[p] == '\r')
        invariant
            i <= p <= s@.len(),
            ws_run(s@, i as int) == (p - i) + ws_run(s@, p as int),
        decreases s@.len() - p,
    {
        proof {
            assert(is_ws(s@[p as int]));
            lemma_ws_run_bound(s@, p + 1);
        }
        p = p + 1;
    }
    p
}

} // verus!
