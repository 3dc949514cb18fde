//! Canonical JSON text: compact output (no whitespace), strings escaped as
//! `serde_json` escapes them, object members in ascending key order.
use vstd::prelude::*;
use crate::text::{
    joined, joined_tail, lemma_joined_front, lemma_joined_tail_front, lemma_prefix_cancel,
    opt_chars, push_char, push_str,
};

verus! {

/// Escape sequence that JSON text uses for one character of a string.
pub open spec fn escaped_char(c: char) -> Seq<char> {
    if c == '"' {
        seq!['\\', '"']
    } else if c == '\\' {
        seq!['\\', '\\']
    } else if c == '\u{08}' {
        seq!['\\', 'b']
    } else if c == '\u{0C}' {
        seq!['\\', 'f']
    } else if c == '\n' {
        seq!['\\', 'n']
    } else if c == '\r' {
        seq!['\\', 'r']
    } else if c == '\t' {
        seq!['\\', 't']
    } else if (c as u32) < 0x20 {
        seq![
            '\\',
            'u',
            '0',
            '0',
            crate::digest::hex_digit(c as int / 16),
            crate::digest::hex_digit(c as int % 16),
        ]
    } else {
        seq![c]
    }
}

/// The escaped body of a JSON string.
pub open spec fn escaped(s: Seq<char>) -> Seq<char>
    decreases s.len(),
{
    if s.len() == 0 {
        Seq::empty()
    } else {
        escaped(s.drop_last()) + escaped_char(s.last())
    }
}

/// JSON text of a string: quoted and escaped.
pub open spec fn json_string_text(s: Seq<char>) -> Seq<char> {
    seq!['"'] + escaped(s) + seq!['"']
}

/// Decimal digit character.
pub open spec fn digit_char(d: int) -> char {
    ((d + 48) as u8) as char
}

/// Decimal text of a natural number, without leading zeros.
pub open spec fn nat_text(n: nat) -> Seq<char>
    decreases n,
{
    if n < 10 {
        seq![digit_char(n as int)]
    } else {
        nat_text(n / 10) + seq![digit_char((n % 10) as int)]
    }
}

/// JSON text of an integer.
pub open spec fn int_text(i: int) -> Seq<char> {
    if i < 0 {
        seq!['-'] + nat_text((-i) as nat)
    } else {
        nat_text(i as nat)
    }
}

/// `serde_json::to_string` on a string slice. Trusted: the text is the string
/// in quotes, with `"` and `\` escaped by a backslash, backspace, form feed,
/// line feed, carriage return and tab written `\b \f \n \r \t`, other
/// characters below U+0020 written `\u00` and two lower-case hex digits, and
/// every other character copied (the crate's `ESCAPE` table). Serializing a
/// string cannot fail.
#[verifier::external_body]
pub fn json_quote(s: &str) -> (res: String)
    ensures
        res@ == json_string_text(s@),
{
    match serde_json::to_string(s) {
        Ok(t) => t,
        Err(_) => String::new(),
    }
}

/// `serde_json::to_string` on an `i128`. Trusted: the decimal text of the
/// integer, with a leading `-` when negative (the crate formats it with
/// `itoa`). Serializing an integer cannot fail.
#[verifier::external_body]
pub fn json_integer(n: i128) -> (res: String)
    ensures
        res@ == int_text(n as int),
{
    match serde_json::to_string(&n) {
        Ok(t) => t,
        Err(_) => String::new(),
    }
}

/// JSON text of `null`.
pub open spec fn null_text() -> Seq<char> {
    "null"@
}

/// JSON text of a boolean.
pub open spec fn bool_text(b: bool) -> Seq<char> {
    if b {
        "true"@
    } else {
        "false"@
    }
}

/// JSON text of an optional string.
pub open spec fn opt_string_text(o: Option<Seq<char>>) -> Seq<char> {
    match o {
        Some(s) => json_string_text(s),
        None => null_text(),
    }
}

/// JSON text of an optional unsigned integer.
pub open spec fn opt_u64_text(o: Option<u64>) -> Seq<char> {
    match o {
        Some(n) => int_text(n as int),
        None => null_text(),
    }
}

/// JSON text of an array whose elements are the given texts.
pub open spec fn array_text(elems: Seq<Seq<char>>) -> Seq<char> {
    seq!['['] + joined(elems, seq![',']) + seq![']']
}

/// JSON text of an array of strings.
pub open spec fn string_array_text(items: Seq<Seq<char>>) -> Seq<char> {
    array_text(items.map_values(|s: Seq<char>| json_string_text(s)))
}

/// JSON text of one object member: the quoted key, a colon, the value text.
pub open spec fn member_text(m: (Seq<char>, Seq<char>)) -> Seq<char> {
    json_string_text(m.0) + seq![':'] + m.1
}

/// JSON text of an object whose members are (key, value text) pairs, in order.
pub open spec fn object_text(members: Seq<(Seq<char>, Seq<char>)>) -> Seq<char> {
    seq!['{'] + joined(members.map_values(|m: (Seq<char>, Seq<char>)| member_text(m)), seq![','])
        + seq!['}']
}

/// Keys and value texts of exec members.
pub open spec fn members_view(members: Seq<(String, String)>) -> Seq<(Seq<char>, Seq<char>)> {
    members.map_values(|m: (String, String)| (m.0@, m.1@))
}

/// A new string holding the characters of a literal.
pub fn literal(s: &str) -> (res: String)
    ensures
        res@ == s@,
{
    s.to_owned()
}

/// JSON text of a boolean.
pub fn bool_json(b: bool) -> (res: String)
    ensures
        res@ == bool_text(b),
{
    if b {
        literal("true")
    } else {
        literal("false")
    }
}

/// JSON text of an optional string.
pub fn opt_string_json(o: &Option<String>) -> (res: String)
    ensures
        res@ == opt_string_text(opt_chars(*o)),
{
    match o {
        Some(s) => json_quote(s.as_str()),
        None => literal("null"),
    }
}

/// JSON text of an optional unsigned integer.
pub fn opt_u64_json(o: Option<u64>) -> (res: String)
    ensures
        res@ == opt_u64_text(o),
{
    match o {
        Some(n) => json_integer(n as i128),
        None => literal("null"),
    }
}

/// JSON text of an array of strings.
pub fn string_array_json(items: &[String]) -> (res: String)
    ensures
        res@ == string_array_text(items.deep_view()),
{
    let ghost dv = items.deep_view();
    let ghost elems = dv.map_values(|s: Seq<char>| json_string_text(s));
    let mut body = String::new();
    let mut i: usize = 0;
    while i < items.len()
        invariant
            i <= items.len(),
            dv == items.deep_view(),
            dv.len() == items.len(),
            elems == dv.map_values(|s: Seq<char>| json_string_text(s)),
            body@ == joined(elems.take(i as int), seq![',']),
        decreases items.len() - i,
    {
        assert(elems.take(i + 1).drop_last() == elems.take(i as int));
        assert(elems[i as int] == json_string_text(items[i as int]@));
        if i > 0 {
            push_char(&mut body, ',');
        }
        let q = json_quote(items[i].as_str());
        push_str(&mut body, q.as_str());
        i = i + 1;
    }
    assert(elems.take(items.len() as int) == elems);
    let mut res = String::new();
    push_char(&mut res, '[');
    push_str(&mut res, body.as_str());
    push_char(&mut res, ']');
    res
}

/// JSON text of an object with the given (key, value text) members, in order.
pub fn object_json(members: &Vec<(String, String)>) -> (res: String)
    ensures
        res@ == object_text(members_view(members@)),
{
    let ghost mv = members_view(members@);
    let ghost elems = mv.map_values(|m: (Seq<char>, Seq<char>)| member_text(m));
    let mut body = String::new();
    let mut i: usize = 0;
    while i < members.len()
        invariant
            i <= members.len(),
            mv == members_view(members@),
            mv.len() == members.len(),
            elems == mv.map_values(|m: (Seq<char>, Seq<char>)| member_text(m)),
            body@ == joined(elems.take(i as int), seq![',']),
        decreases members.len() - i,
    {
        assert(elems.take(i + 1).drop_last() == elems.take(i as int));
        assert(elems[i as int] == member_text((members@[i as int].0@, members@[i as int].1@)));
        if i > 0 {
            push_char(&mut body, ',');
        }
        let k = json_quote(members[i].0.as_str());
        push_str(&mut body, k.as_str());
        push_char(&mut body, ':');
        push_str(&mut body, members[i].1.as_str());
        i = i + 1;
    }
    assert(elems.take(members.len() as int) == elems);
    let mut res = String::new();
    push_char(&mut res, '{');
    push_str(&mut res, body.as_str());
    push_char(&mut res, '}');
    res
}


/// The decimal text of a natural number is not empty and does not begin
/// with a minus sign.
proof fn lemma_nat_text_shape(n: nat)
    ensures
        nat_text(n).len() >= 1,
        nat_text(n)[0] != '-',
        n >= 10 ==> nat_text(n).len() >= 2,
    decreases n,
{
    if n >= 10 {
        lemma_nat_text_shape(n / 10);
    }
}

/// Different natural numbers have different decimal texts.
pub proof fn lemma_nat_text_injective(n: nat, m: nat)
    requires
        nat_text(n) == nat_text(m),
    ensures
        n == m,
    decreases n,
{
    lemma_nat_text_shape(n);
    lemma_nat_text_shape(m);
    if n >= 10 && m >= 10 {
        let tn = nat_text(n);
        let tm = nat_text(m);
        assert(tn.drop_last() =~= nat_text(n / 10));
        assert(tm.drop_last() =~= nat_text(m / 10));
        lemma_nat_text_injective(n / 10, m / 10);
        assert(tn.last() == digit_char((n % 10) as int));
        assert(tm.last() == digit_char((m % 10) as int));
    } else if n < 10 && m < 10 {
        assert(nat_text(n)[0] == digit_char(n as int));
        assert(nat_text(m)[0] == digit_char(m as int));
    }
}

/// Different integers have different JSON texts.
pub proof fn lemma_int_text_injective(i: int, j: int)
    requires
        int_text(i) == int_text(j),
    ensures
        i == j,
{
    if i < 0 && j < 0 {
        assert(int_text(i).drop_first() =~= nat_text((-i) as nat));
        assert(int_text(j).drop_first() =~= nat_text((-j) as nat));
        lemma_nat_text_injective((-i) as nat, (-j) as nat);
    } else if i >= 0 && j >= 0 {
        lemma_nat_text_injective(i as nat, j as nat);
    } else if i < 0 {
        lemma_nat_text_shape(j as nat);
        assert(int_text(i)[0] == '-');
    } else {
        lemma_nat_text_shape(i as nat);
        assert(int_text(j)[0] == '-');
    }
}

/// Number of characters of the escape code at the start of `t`: six for a
/// `\u00XY` code, two for another code that begins with a backslash, else one.
pub open spec fn code_len(t: Seq<char>) -> int {
    if t[0] != '\\' {
        1
    } else if t[1] == 'u' {
        6
    } else {
        2
    }
}

proof fn lemma_escaped_char_shape(c: char)
    ensures
        escaped_char(c).len() >= 1,
        escaped_char(c).len() == code_len(escaped_char(c)),
        escaped_char(c)[0] != '"',
{
}

proof fn lemma_hex_digit_injective(x: int, y: int)
    requires
        0 <= x < 16,
        0 <= y < 16,
        crate::digest::hex_digit(x) == crate::digest::hex_digit(y),
    ensures
        x == y,
{
}

proof fn lemma_escaped_char_injective(c: char, d: char)
    requires
        escaped_char(c) == escaped_char(d),
    ensures
        c == d,
{
    let e = escaped_char(c);
    if e.len() == 6 {
        assert((c as u32) < 0x20 && (d as u32) < 0x20);
        assert(e[4] == crate::digest::hex_digit(c as int / 16));
        assert(escaped_char(d)[4] == crate::digest::hex_digit(d as int / 16));
        assert(e[5] == crate::digest::hex_digit(c as int % 16));
        assert(escaped_char(d)[5] == crate::digest::hex_digit(d as int % 16));
        lemma_hex_digit_injective(c as int / 16, d as int / 16);
        lemma_hex_digit_injective(c as int % 16, d as int % 16);
        assert(c as int == d as int);
    } else if e.len() == 2 {
        assert(e[1] == escaped_char(d)[1]);
    } else {
        assert(e[0] == escaped_char(d)[0]);
    }
}

/// The escape codes form a prefix code: a text that begins with the code of
/// `c` and also with the code of `d` has `c == d`, and the same text follows.
pub proof fn lemma_escape_code_prefix(c: char, d: char, r1: Seq<char>, r2: Seq<char>)
    requires
        escaped_char(c) + r1 == escaped_char(d) + r2,
    ensures
        c == d,
        r1 == r2,
{
    let t = escaped_char(c) + r1;
    let ec = escaped_char(c);
    let ed = escaped_char(d);
    lemma_escaped_char_shape(c);
    lemma_escaped_char_shape(d);
    assert(t[0] == ec[0] && t[0] == ed[0]);
    if ec.len() > 1 {
        assert(t[1] == ec[1]);
    }
    if ed.len() > 1 {
        assert(t[1] == ed[1]);
    }
    assert(ec.len() == ed.len());
    assert(ec =~= t.take(ec.len() as int));
    assert(ed =~= (escaped_char(d) + r2).take(ed.len() as int));
    lemma_escaped_char_injective(c, d);
    assert(r1 =~= t.skip(ec.len() as int));
    assert(r2 =~= (escaped_char(d) + r2).skip(ed.len() as int));
}

/// `escaped` read from the front: the code of the first character, then the
/// rest.
pub proof fn lemma_escaped_front(s: Seq<char>)
    requires
        s.len() > 0,
    ensures
        escaped(s) == escaped_char(s[0]) + escaped(s.drop_first()),
    decreases s.len(),
{
    if s.len() == 1 {
        assert(s.drop_last().len() == 0);
        assert(s.drop_first().len() == 0);
        assert(escaped(s.drop_first()) == Seq::<char>::empty());
        assert(escaped(s.drop_last()) == Seq::<char>::empty());
        assert(s.last() == s[0]);
        assert(escaped(s) == Seq::<char>::empty() + escaped_char(s[0]));
        assert(escaped(s) =~= escaped_char(s[0]) + escaped(s.drop_first()));
    } else {
        lemma_escaped_front(s.drop_last());
        assert(s.drop_last().drop_first() =~= s.drop_first().drop_last());
        assert(s.drop_first().last() == s.last());
        assert(s.drop_last()[0] == s[0]);
        let m = s.drop_first().drop_last();
        assert(escaped(s.drop_last()) == escaped_char(s[0]) + escaped(m));
        assert(escaped(s.drop_first()) == escaped(m) + escaped_char(s.last()));
        assert(escaped(s) == escaped(s.drop_last()) + escaped_char(s.last()));
        assert((escaped_char(s[0]) + escaped(m)) + escaped_char(s.last()) =~= escaped_char(s[0]) + (
        escaped(m) + escaped_char(s.last())));
    }
}

/// An escaped string followed by a closing quote is read back unambiguously.
proof fn lemma_escaped_quote_prefix(s: Seq<char>, t: Seq<char>, r1: Seq<char>, r2: Seq<char>)
    requires
        escaped(s) + seq!['"'] + r1 == escaped(t) + seq!['"'] + r2,
    ensures
        s == t,
        r1 == r2,
    decreases s.len(),
{
    let x = escaped(s) + seq!['"'] + r1;
    if s.len() == 0 {
        if t.len() > 0 {
            lemma_escaped_front(t);
            lemma_escaped_char_shape(t[0]);
            assert(x[0] == '"');
            assert((escaped(t) + seq!['"'] + r2)[0] == escaped_char(t[0])[0]);
        } else {
            assert(x =~= seq!['"'] + r1);
            assert(escaped(t) + seq!['"'] + r2 =~= seq!['"'] + r2);
            assert(r1 =~= x.drop_first());
            assert(r2 =~= (seq!['"'] + r2).drop_first());
        }
    } else if t.len() == 0 {
        lemma_escaped_front(s);
        lemma_escaped_char_shape(s[0]);
        assert(x[0] == escaped_char(s[0])[0]);
        assert((escaped(t) + seq!['"'] + r2)[0] == '"');
    } else {
        lemma_escaped_front(s);
        lemma_escaped_front(t);
        let rs = escaped(s.drop_first()) + seq!['"'] + r1;
        let rt = escaped(t.drop_first()) + seq!['"'] + r2;
        assert(x =~= escaped_char(s[0]) + rs);
        assert(escaped(t) + seq!['"'] + r2 =~= escaped_char(t[0]) + rt);
        lemma_escape_code_prefix(s[0], t[0], rs, rt);
        lemma_escaped_quote_prefix(s.drop_first(), t.drop_first(), r1, r2);
        assert(s =~= seq![s[0]] + s.drop_first());
        assert(t =~= seq![t[0]] + t.drop_first());
    }
}

/// A JSON string followed by any text is read back unambiguously.
pub proof fn lemma_json_string_prefix(s: Seq<char>, t: Seq<char>, r1: Seq<char>, r2: Seq<char>)
    requires
        json_string_text(s) + r1 == json_string_text(t) + r2,
    ensures
        s == t,
        r1 == r2,
{
    let x = json_string_text(s) + r1;
    let y = json_string_text(t) + r2;
    assert(x.drop_first() =~= escaped(s) + seq!['"'] + r1);
    assert(y.drop_first() =~= escaped(t) + seq!['"'] + r2);
    lemma_escaped_quote_prefix(s, t, r1, r2);
}


proof fn lemma_string_tail_prefix(
    a: Seq<Seq<char>>,
    b: Seq<Seq<char>>,
    r1: Seq<char>,
    r2: Seq<char>,
)
    requires
        joined_tail(a.map_values(|s: Seq<char>| json_string_text(s)), seq![','])
            + seq![']'] + r1 == joined_tail(
            b.map_values(|s: Seq<char>| json_string_text(s)),
            seq![','],
        ) + seq![']'] + r2,
    ensures
        a == b,
        r1 == r2,
    decreases a.len(),
{
    let qa = a.map_values(|s: Seq<char>| json_string_text(s));
    let qb = b.map_values(|s: Seq<char>| json_string_text(s));
    let x = joined_tail(qa, seq![',']) + seq![']'] + r1;
    let y = joined_tail(qb, seq![',']) + seq![']'] + r2;
    if a.len() == 0 && b.len() == 0 {
        assert(a =~= b);
        assert(x =~= seq![']'] + r1);
        assert(y =~= seq![']'] + r2);
        assert(r1 =~= x.drop_first());
        assert(r2 =~= y.drop_first());
    } else if a.len() == 0 {
        lemma_joined_tail_front(qb, seq![',']);
        assert(joined_tail(qa, seq![',']) == Seq::<char>::empty());
        assert(x[0] == ']');
        assert(y[0] == ',');
    } else if b.len() == 0 {
        lemma_joined_tail_front(qa, seq![',']);
        assert(joined_tail(qb, seq![',']) == Seq::<char>::empty());
        assert(y[0] == ']');
        assert(x[0] == ',');
    } else {
        lemma_joined_tail_front(qa, seq![',']);
        lemma_joined_tail_front(qb, seq![',']);
        let ra = joined_tail(qa.drop_first(), seq![',']) + seq![']'] + r1;
        let rb = joined_tail(qb.drop_first(), seq![',']) + seq![']'] + r2;
        assert(x.drop_first() =~= json_string_text(a[0]) + ra);
        assert(y.drop_first() =~= json_string_text(b[0]) + rb);
        lemma_json_string_prefix(a[0], b[0], ra, rb);
        assert(qa.drop_first() =~= a.drop_first().map_values(|s: Seq<char>| json_string_text(s)));
        assert(qb.drop_first() =~= b.drop_first().map_values(|s: Seq<char>| json_string_text(s)));
        lemma_string_tail_prefix(a.drop_first(), b.drop_first(), r1, r2);
        assert(a =~= seq![a[0]] + a.drop_first());
        assert(b =~= seq![b[0]] + b.drop_first());
    }
}

/// The JSON text of an array of strings followed by any text is read back
/// unambiguously.
pub proof fn lemma_string_array_prefix(
    a: Seq<Seq<char>>,
    b: Seq<Seq<char>>,
    r1: Seq<char>,
    r2: Seq<char>,
)
    requires
        string_array_text(a) + r1 == string_array_text(b) + r2,
    ensures
        a == b,
        r1 == r2,
{
    let qa = a.map_values(|s: Seq<char>| json_string_text(s));
    let qb = b.map_values(|s: Seq<char>| json_string_text(s));
    let x = string_array_text(a) + r1;
    let y = string_array_text(b) + r2;
    if a.len() == 0 && b.len() == 0 {
        assert(a =~= b);
        assert(x =~= seq!['[', ']'] + r1);
        assert(y =~= seq!['[', ']'] + r2);
        assert(r1 =~= x.skip(2));
        assert(r2 =~= y.skip(2));
    } else if a.len() == 0 {
        lemma_joined_front(qb, seq![',']);
        assert(joined(qa, seq![',']) == Seq::<char>::empty());
        assert(x[1] == ']');
        assert(y[1] == json_string_text(b[0])[0]);
    } else if b.len() == 0 {
        lemma_joined_front(qa, seq![',']);
        assert(joined(qb, seq![',']) == Seq::<char>::empty());
        assert(y[1] == ']');
        assert(x[1] == json_string_text(a[0])[0]);
    } else {
        lemma_joined_front(qa, seq![',']);
        lemma_joined_front(qb, seq![',']);
        let ra = joined_tail(qa.drop_first(), seq![',']) + seq![']'] + r1;
        let rb = joined_tail(qb.drop_first(), seq![',']) + seq![']'] + r2;
        assert(x.drop_first() =~= json_string_text(a[0]) + ra);
        assert(y.drop_first() =~= json_string_text(b[0]) + rb);
        lemma_json_string_prefix(a[0], b[0], ra, rb);
        assert(qa.drop_first() =~= a.drop_first().map_values(|s: Seq<char>| json_string_text(s)));
        assert(qb.drop_first() =~= b.drop_first().map_values(|s: Seq<char>| json_string_text(s)));
        lemma_string_tail_prefix(a.drop_first(), b.drop_first(), r1, r2);
        assert(a =~= seq![a[0]] + a.drop_first());
        assert(b =~= seq![b[0]] + b.drop_first());
    }
}

/// Different arrays of strings have different JSON texts.
pub proof fn lemma_string_array_text_injective(a: Seq<Seq<char>>, b: Seq<Seq<char>>)
    requires
        string_array_text(a) == string_array_text(b),
    ensures
        a == b,
{
    assert(string_array_text(a) + Seq::<char>::empty() =~= string_array_text(a));
    assert(string_array_text(b) + Seq::<char>::empty() =~= string_array_text(b));
    lemma_string_array_prefix(a, b, Seq::<char>::empty(), Seq::<char>::empty());
}


/// What may follow a member value inside an object: a text that begins with
/// `,` or `}`.
pub open spec fn follows_value(r: Seq<char>) -> bool {
    r.len() > 0 && (r[0] == ',' || r[0] == '}')
}

/// `x` followed by `r1` is the text `y` followed by `r2`.
pub open spec fn same_text(x: Seq<char>, r1: Seq<char>, y: Seq<char>, r2: Seq<char>) -> bool {
    x + r1 == y + r2
}

/// The value texts `x` and `y` are read back unambiguously inside an object:
/// a text that is `x` then a continuation, and also `y` then one, where both
/// continuations begin with `,` or `}`, has `x == y` and one continuation.
pub open spec fn value_decodes(x: Seq<char>, y: Seq<char>) -> bool {
    forall|r1: Seq<char>, r2: Seq<char>|
        #[trigger] same_text(x, r1, y, r2) && follows_value(r1) && follows_value(r2) ==> x == y
            && r1 == r2
}

/// Decimal text is made of digits, at least one.
pub proof fn lemma_nat_text_digits(n: nat)
    ensures
        nat_text(n).len() >= 1,
        forall|i: int| 0 <= i < nat_text(n).len() ==> '0' <= #[trigger] nat_text(n)[i] <= '9',
    decreases n,
{
    lemma_nat_text_shape(n);
    if n >= 10 {
        lemma_nat_text_digits(n / 10);
        let t = nat_text(n);
        assert forall|i: int| 0 <= i < t.len() implies '0' <= #[trigger] t[i] <= '9' by {
            if i < t.len() - 1 {
                assert(t[i] == nat_text(n / 10)[i]);
            }
        }
    }
}

/// Decimal text followed by a text that does not begin with a digit is read
/// back unambiguously.
proof fn lemma_nat_text_prefix(n: nat, m: nat, r1: Seq<char>, r2: Seq<char>)
    requires
        nat_text(n) + r1 == nat_text(m) + r2,
        r1.len() > 0 ==> !('0' <= r1[0] <= '9'),
        r2.len() > 0 ==> !('0' <= r2[0] <= '9'),
    ensures
        n == m,
        r1 == r2,
{
    let a = nat_text(n);
    let b = nat_text(m);
    let x = a + r1;
    lemma_nat_text_digits(n);
    lemma_nat_text_digits(m);
    if a.len() < b.len() {
        assert(x.len() == b.len() + r2.len());
        assert(x[a.len() as int] == r1[0]);
        assert(x[a.len() as int] == b[a.len() as int]);
    } else if b.len() < a.len() {
        assert(x.len() == a.len() + r1.len());
        assert((b + r2)[b.len() as int] == r2[0]);
        assert(x[b.len() as int] == a[b.len() as int]);
    } else {
        assert(a =~= x.take(a.len() as int));
        assert(b =~= (b + r2).take(b.len() as int));
        lemma_nat_text_injective(n, m);
        lemma_prefix_cancel(a, r1, r2);
    }
}

/// Integer texts are read back unambiguously inside an object.
pub proof fn lemma_int_value_decodes(i: int, j: int)
    ensures
        value_decodes(int_text(i), int_text(j)),
{
    assert forall|r1: Seq<char>, r2: Seq<char>|
        #[trigger] same_text(int_text(i), r1, int_text(j), r2) && follows_value(r1) && follows_value(
            r2,
        ) implies int_text(i) == int_text(j) && r1 == r2 by {
        let x = int_text(i) + r1;
        lemma_nat_text_shape((if i < 0 { -i } else { i }) as nat);
        lemma_nat_text_shape((if j < 0 { -j } else { j }) as nat);
        lemma_nat_text_digits((if i < 0 { -i } else { i }) as nat);
        lemma_nat_text_digits((if j < 0 { -j } else { j }) as nat);
        if i < 0 && j < 0 {
            let ni = nat_text((-i) as nat);
            let nj = nat_text((-j) as nat);
            assert(x =~= seq!['-'] + (ni + r1));
            assert(int_text(j) + r2 =~= seq!['-'] + (nj + r2));
            lemma_prefix_cancel(seq!['-'], ni + r1, nj + r2);
            lemma_nat_text_prefix((-i) as nat, (-j) as nat, r1, r2);
        } else if i >= 0 && j >= 0 {
            lemma_nat_text_prefix(i as nat, j as nat, r1, r2);
        } else if i < 0 {
            assert(x[0] == '-');
            assert((int_text(j) + r2)[0] == int_text(j)[0]);
        } else {
            assert(x[0] == int_text(i)[0]);
            assert((int_text(j) + r2)[0] == '-');
        }
    }
}

/// JSON strings are read back unambiguously inside an object.
pub proof fn lemma_string_value_decodes(s: Seq<char>, t: Seq<char>)
    ensures
        value_decodes(json_string_text(s), json_string_text(t)),
{
    assert forall|r1: Seq<char>, r2: Seq<char>|
        #[trigger] same_text(json_string_text(s), r1, json_string_text(t), r2) && follows_value(r1)
            && follows_value(r2) implies json_string_text(s) == json_string_text(t) && r1 == r2 by {
        lemma_json_string_prefix(s, t, r1, r2);
    }
}

/// Arrays of strings are read back unambiguously inside an object.
pub proof fn lemma_string_array_value_decodes(a: Seq<Seq<char>>, b: Seq<Seq<char>>)
    ensures
        value_decodes(string_array_text(a), string_array_text(b)),
{
    assert forall|r1: Seq<char>, r2: Seq<char>|
        #[trigger] same_text(string_array_text(a), r1, string_array_text(b), r2) && follows_value(
            r1,
        ) && follows_value(r2) implies string_array_text(a) == string_array_text(b) && r1 == r2 by {
        lemma_string_array_prefix(a, b, r1, r2);
    }
}

/// Optional strings (`null` or a JSON string) are read back unambiguously
/// inside an object.
pub proof fn lemma_opt_string_value_decodes(o1: Option<Seq<char>>, o2: Option<Seq<char>>)
    ensures
        value_decodes(opt_string_text(o1), opt_string_text(o2)),
{
    reveal_strlit("null");
    assert forall|r1: Seq<char>, r2: Seq<char>|
        #[trigger] same_text(opt_string_text(o1), r1, opt_string_text(o2), r2) && follows_value(r1)
            && follows_value(r2) implies opt_string_text(o1) == opt_string_text(o2) && r1 == r2 by {
        let x = opt_string_text(o1) + r1;
        match (o1, o2) {
            (Some(s), Some(t)) => {
                lemma_json_string_prefix(s, t, r1, r2);
            },
            (None, None) => {
                lemma_prefix_cancel(null_text(), r1, r2);
            },
            (None, Some(t)) => {
                assert(x[0] == 'n');
                assert((opt_string_text(o2) + r2)[0] == '"');
            },
            (Some(s), None) => {
                assert(x[0] == '"');
                assert((opt_string_text(o2) + r2)[0] == 'n');
            },
        }
    }
}

/// Optional unsigned integers (`null` or decimal text) are read back
/// unambiguously inside an object.
pub proof fn lemma_opt_u64_value_decodes(o1: Option<u64>, o2: Option<u64>)
    ensures
        value_decodes(opt_u64_text(o1), opt_u64_text(o2)),
{
    reveal_strlit("null");
    assert forall|r1: Seq<char>, r2: Seq<char>|
        #[trigger] same_text(opt_u64_text(o1), r1, opt_u64_text(o2), r2) && follows_value(r1)
            && follows_value(r2) implies opt_u64_text(o1) == opt_u64_text(o2) && r1 == r2 by {
        let x = opt_u64_text(o1) + r1;
        match (o1, o2) {
            (Some(a), Some(b)) => {
                lemma_int_value_decodes(a as int, b as int);
                assert(same_text(int_text(a as int), r1, int_text(b as int), r2));
            },
            (None, None) => {
                lemma_prefix_cancel(null_text(), r1, r2);
            },
            (None, Some(b)) => {
                lemma_nat_text_digits(b as nat);
                lemma_nat_text_shape(b as nat);
                assert(x[0] == 'n');
                assert((opt_u64_text(o2) + r2)[0] == nat_text(b as nat)[0]);
            },
            (Some(a), None) => {
                lemma_nat_text_digits(a as nat);
                lemma_nat_text_shape(a as nat);
                assert(x[0] == nat_text(a as nat)[0]);
                assert((opt_u64_text(o2) + r2)[0] == 'n');
            },
        }
    }
}

/// `true` and `false` are read back unambiguously inside an object.
pub proof fn lemma_bool_value_decodes(a: bool, b: bool)
    ensures
        value_decodes(bool_text(a), bool_text(b)),
{
    reveal_strlit("true");
    reveal_strlit("false");
    assert forall|r1: Seq<char>, r2: Seq<char>|
        #[trigger] same_text(bool_text(a), r1, bool_text(b), r2) && follows_value(r1)
            && follows_value(r2) implies bool_text(a) == bool_text(b) && r1 == r2 by {
        let x = bool_text(a) + r1;
        if a == b {
            lemma_prefix_cancel(bool_text(a), r1, r2);
        } else {
            assert(x[0] == bool_text(a)[0]);
            assert((bool_text(b) + r2)[0] == bool_text(b)[0]);
        }
    }
}

/// Texts of the members of an object.
pub open spec fn member_texts(members: Seq<(Seq<char>, Seq<char>)>) -> Seq<Seq<char>> {
    members.map_values(|m: (Seq<char>, Seq<char>)| member_text(m))
}

proof fn lemma_members_prefix(
    a: Seq<(Seq<char>, Seq<char>)>,
    b: Seq<(Seq<char>, Seq<char>)>,
    r1: Seq<char>,
    r2: Seq<char>,
)
    requires
        a.len() == b.len(),
        a.len() > 0,
        forall|i: int| 0 <= i < a.len() ==> (#[trigger] a[i]).0 == b[i].0,
        forall|i: int| 0 <= i < a.len() ==> #[trigger] value_decodes(a[i].1, b[i].1),
        joined(member_texts(a), seq![',']) + seq!['}'] + r1 == joined(member_texts(b), seq![','])
            + seq!['}'] + r2,
    ensures
        forall|i: int| 0 <= i < a.len() ==> (#[trigger] a[i]).1 == b[i].1,
        r1 == r2,
    decreases a.len(),
{
    let ta = member_texts(a);
    let tb = member_texts(b);
    lemma_joined_front(ta, seq![',']);
    lemma_joined_front(tb, seq![',']);
    let ca = joined_tail(ta.drop_first(), seq![',']) + seq!['}'] + r1;
    let cb = joined_tail(tb.drop_first(), seq![',']) + seq!['}'] + r2;
    let key = json_string_text(a[0].0) + seq![':'];
    assert(a[0].0 == b[0].0);
    assert(joined(ta, seq![',']) + seq!['}'] + r1 =~= key + (a[0].1 + ca));
    assert(joined(tb, seq![',']) + seq!['}'] + r2 =~= key + (b[0].1 + cb));
    lemma_prefix_cancel(key, a[0].1 + ca, b[0].1 + cb);
    if a.len() > 1 {
        lemma_joined_tail_front(ta.drop_first(), seq![',']);
        lemma_joined_tail_front(tb.drop_first(), seq![',']);
    }
    assert(follows_value(ca));
    assert(follows_value(cb));
    assert(value_decodes(a[0].1, b[0].1));
    assert(same_text(a[0].1, ca, b[0].1, cb));
    if a.len() == 1 {
        assert(ta.drop_first().len() == 0);
        assert(tb.drop_first().len() == 0);
        assert(ca =~= seq!['}'] + r1);
        assert(cb =~= seq!['}'] + r2);
        lemma_prefix_cancel(seq!['}'], r1, r2);
    } else {
        let ra = a.drop_first();
        let rb = b.drop_first();
        assert(member_texts(ra) =~= ta.drop_first());
        assert(member_texts(rb) =~= tb.drop_first());
        lemma_joined_front(ta.drop_first(), seq![',']);
        lemma_joined_front(tb.drop_first(), seq![',']);
        assert(ca =~= seq![','] + (joined(member_texts(ra), seq![',']) + seq!['}'] + r1));
        assert(cb =~= seq![','] + (joined(member_texts(rb), seq![',']) + seq!['}'] + r2));
        lemma_prefix_cancel(
            seq![','],
            joined(member_texts(ra), seq![',']) + seq!['}'] + r1,
            joined(member_texts(rb), seq![',']) + seq!['}'] + r2,
        );
        assert forall|i: int| 0 <= i < ra.len() implies (#[trigger] ra[i]).0 == rb[i].0 by {
            assert(ra[i] == a[i + 1]);
            assert(rb[i] == b[i + 1]);
        }
        assert forall|i: int| 0 <= i < ra.len() implies #[trigger] value_decodes(ra[i].1, rb[i].1) by {
            assert(ra[i] == a[i + 1]);
            assert(rb[i] == b[i + 1]);
        }
        lemma_members_prefix(ra, rb, r1, r2);
        assert forall|i: int| 0 <= i < a.len() implies (#[trigger] a[i]).1 == b[i].1 by {
            if i > 0 {
                assert(ra[i - 1] == a[i]);
                assert(rb[i - 1] == b[i]);
            }
        }
    }
}

/// The text of an object with the same keys as another, each pair of values
/// read back unambiguously, followed by any text, gives back its values.
pub proof fn lemma_object_prefix(
    a: Seq<(Seq<char>, Seq<char>)>,
    b: Seq<(Seq<char>, Seq<char>)>,
    r1: Seq<char>,
    r2: Seq<char>,
)
    requires
        a.len() == b.len(),
        forall|i: int| 0 <= i < a.len() ==> (#[trigger] a[i]).0 == b[i].0,
        forall|i: int| 0 <= i < a.len() ==> #[trigger] value_decodes(a[i].1, b[i].1),
        object_text(a) + r1 == object_text(b) + r2,
    ensures
        forall|i: int| 0 <= i < a.len() ==> (#[trigger] a[i]).1 == b[i].1,
        a == b,
        r1 == r2,
{
    let ja = joined(member_texts(a), seq![',']);
    let jb = joined(member_texts(b), seq![',']);
    assert(object_text(a) + r1 =~= seq!['{'] + (ja + seq!['}'] + r1));
    assert(object_text(b) + r2 =~= seq!['{'] + (jb + seq!['}'] + r2));
    lemma_prefix_cancel(seq!['{'], ja + seq!['}'] + r1, jb + seq!['}'] + r2);
    if a.len() == 0 {
        assert(ja == Seq::<char>::empty());
        assert(jb == Seq::<char>::empty());
        assert(ja + seq!['}'] + r1 =~= seq!['}'] + r1);
        assert(jb + seq!['}'] + r2 =~= seq!['}'] + r2);
        lemma_prefix_cancel(seq!['}'], r1, r2);
        assert(a =~= b);
    } else {
        lemma_members_prefix(a, b, r1, r2);
        assert forall|i: int| 0 <= i < a.len() implies a[i] == b[i] by {
            assert(a[i].0 == b[i].0);
            assert(a[i].1 == b[i].1);
        }
        assert(a =~= b);
    }
}


/// A character that JSON strings hold as itself.
pub open spec fn is_plain_char(c: char) -> bool {
    c != '"' && c != '\\' && (c as u32) >= 0x20
}

/// Text of plain characters is its own escaped form.
pub proof fn lemma_escaped_plain(s: Seq<char>)
    requires
        forall|i: int| 0 <= i < s.len() ==> is_plain_char(#[trigger] s[i]),
    ensures
        escaped(s) == s,
    decreases s.len(),
{
    if s.len() > 0 {
        lemma_escaped_plain(s.drop_last());
        assert(is_plain_char(s[s.len() - 1]));
        assert(s.drop_last().push(s.last()) =~= s);
    }
}

} // verus!
