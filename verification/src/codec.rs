//! JSON codec for the persisted state.
//!
//! The on-disk mirror is a single JSON document.  The serializer emits a
//! canonical compact form; the parser accepts that form with arbitrary
//! whitespace between tokens, in any member order, with any subset of the
//! members present — a missing member falls back to its default, and a
//! document that does not parse falls back to the default state as a whole.

use vstd::prelude::*;
use crate::state::ids_unique;
use crate::state::wf;
use crate::state::ReminderItem;
use crate::state::SchedulerState;

verus! {

// ---------------------------------------------------------------------------
// Serialized form, as specification
// ---------------------------------------------------------------------------

/// How one character is written inside a JSON string: quote, backslash and
/// the common control characters are escaped, everything else stands as is.
pub open spec fn esc_char(c: char) -> Seq<char> {
    if c == '"' {
        seq!['\\', '"']
    } else if c == '\\' {
        seq!['\\', '\\']
    } else if c == '\n' {
        seq!['\\', 'n']
    } else if c == '\r' {
        seq!['\\', 'r']
    } else if c == '\t' {
        seq!['\\', 't']
    } else {
        seq![c]
    }
}

/// A string body with every character escaped as needed.
pub open spec fn esc(s: Seq<char>) -> Seq<char>
    decreases s.len(),
{
    if s.len() == 0 {
        Seq::empty()
    } else {
        esc_char(s[0]) + esc(s.drop_first())
    }
}

/// Appending one character extends the escaped form at the end.
pub proof fn lemma_esc_snoc(s: Seq<char>, c: char)
    ensures
        esc(s.push(c)) == esc(s) + esc_char(c),
    decreases s.len(),
{
    let t = s.push(c);
    assert(t.len() == s.len() + 1);
    assert(t[0] == if s.len() == 0 {
        c
    } else {
        s[0]
    });
    if s.len() == 0 {
        assert(t.drop_first() =~= Seq::<char>::empty());
        assert(esc(t) == esc_char(c) + esc(t.drop_first()));
        assert(esc(t) =~= esc_char(c));
        assert(esc(s) + esc_char(c) =~= esc_char(c));
    } else {
        assert(t.drop_first() =~= s.drop_first().push(c));
        lemma_esc_snoc(s.drop_first(), c);
        assert(esc(t) == esc_char(s[0]) + (esc(s.drop_first()) + esc_char(c)));
        assert(esc_char(s[0]) + (esc(s.drop_first()) + esc_char(c)) =~= (esc_char(s[0]) + esc(
            s.drop_first(),
        )) + esc_char(c));
    }
}

/// A quoted JSON string.
pub open spec fn ser_string(s: Seq<char>) -> Seq<char> {
    seq!['"'] + esc(s) + seq!['"']
}

/// One item as a JSON object.
pub open spec fn ser_item(z: ReminderItem) -> Seq<char> {
    "{\"id\":"@ + ser_string(z.id@) + ",\"text\":"@ + ser_string(z.text@) + "}"@
}

/// The items from index `k` on, each preceded by a comma, then the closing
/// bracket.
pub open spec fn ser_tail_from(items: Seq<ReminderItem>, k: int) -> Seq<char>
    decreases items.len() - k,
    when 0 <= k <= items.len()
{
    if k == items.len() {
        seq![']']
    } else {
        seq![','] + ser_item(items[k]) + ser_tail_from(items, k + 1)
    }
}

/// The whole item array after its opening bracket, closing bracket included.
pub open spec fn ser_block(items: Seq<ReminderItem>) -> Seq<char> {
    if items.len() == 0 {
        seq![']']
    } else {
        ser_item(items[0]) + ser_tail_from(items, 1)
    }
}

/// A boolean literal.
pub open spec fn ser_bool(b: bool) -> Seq<char> {
    if b {
        "true"@
    } else {
        "false"@
    }
}

/// The back-reference: a string or `null`.
pub open spec fn ser_shown(shown: Option<Seq<char>>) -> Seq<char> {
    match shown {
        None => "null"@,
        Some(x) => ser_string(x),
    }
}

/// The canonical document for a whole state.
pub open spec fn ser_state(s: SchedulerState) -> Seq<char> {
    "{\"items\":["@ + ser_block(s.items@) + ",\"intervalSeconds\":"@ + crate::digits::dec_chars(
        s.interval_seconds as nat,
    ) + ",\"dailyCount\":"@ + crate::digits::dec_chars(s.daily_count as nat)
        + ",\"lastResetDate\":"@ + ser_string(s.last_reset_date@) + ",\"lastNotificationTime\":"@
        + crate::digits::dec_chars(s.last_notification_time as nat) + ",\"isPaused\":"@ + ser_bool(
        s.is_paused,
    ) + ",\"lastShownItemId\":"@ + ser_shown(crate::state::shown_view(s)) + "}"@
}

// ---------------------------------------------------------------------------
// Serializer
// ---------------------------------------------------------------------------

/// Append the characters of a literal.
fn push_lit(out: &mut Vec<char>, s: &str)
    ensures
        final(out)@ == old(out)@ + s@,
{
    let cv = crate::chars::string_chars(s);
    let mut k: usize = 0;
    while k < cv.len()
        invariant
            k <= cv@.len(),
            cv@ == s@,
            out@ == old(out)@ + cv@.subrange(0, k as int),
        decreases cv@.len() - k,
    {
        let ghost pre = cv@.subrange(0, k as int);
        out.push(cv[k]);
        k += 1;
        proof {
            assert(cv@.subrange(0, k as int) =~= pre.push(cv@[k - 1]));
            assert(out@ =~= old(out)@ + cv@.subrange(0, k as int));
        }
    }
    proof {
        assert(cv@.subrange(0, cv@.len() as int) =~= s@);
    }
}

/// Append a quoted, escaped JSON string.
fn push_string(out: &mut Vec<char>, s: &str)
    ensures
        final(out)@ == old(out)@ + ser_string(s@),
{
    let cv = crate::chars::string_chars(s);
    out.push('"');
    let ghost base = out@;
    let mut k: usize = 0;
    while k < cv.len()
        invariant
            k <= cv@.len(),
            cv@ == s@,
            out@ == base + esc(cv@.subrange(0, k as int)),
        decreases cv@.len() - k,
    {
        let ghost pre = cv@.subrange(0, k as int);
        let c = cv[k];
        if c == '"' {
            out.push('\\');
            out.push('"');
        } else if c == '\\' {
            out.push('\\');
            out.push('\\');
        } else if c == '\n' {
            out.push('\\');
            out.push('n');
        } else if c == '\r' {
            out.push('\\');
            out.push('r');
        } else if c == '\t' {
            out.push('\\');
            out.push('t');
        } else {
            out.push(c);
        }
        k += 1;
        proof {
            assert(cv@.subrange(0, k as int) =~= pre.push(c));
            lemma_esc_snoc(pre, c);
            assert(out@ =~= base + esc(cv@.subrange(0, k as int)));
        }
    }
    out.push('"');
    proof {
        assert(cv@.subrange(0, cv@.len() as int) =~= s@);
        assert(out@ =~= old(out)@ + ser_string(s@));
    }
}

/// Append one item object.
fn push_item(out: &mut Vec<char>, z: &ReminderItem)
    ensures
        final(out)@ == old(out)@ + ser_item(*z),
{
    push_lit(out, "{\"id\":");
    push_string(out, z.id.as_str());
    push_lit(out, ",\"text\":");
    push_string(out, z.text.as_str());
    push_lit(out, "}");
    proof {
        assert(out@ =~= old(out)@ + ser_item(*z));
    }
}

/// Append the items from index `k` on, comma-led, and the closing bracket.
fn push_tail_from(out: &mut Vec<char>, items: &Vec<ReminderItem>, k: usize)
    requires
        k <= items@.len(),
    ensures
        final(out)@ == old(out)@ + ser_tail_from(items@, k as int),
    decreases items@.len() - k,
{
    if k == items.len() {
        out.push(']');
        proof {
            assert(out@ =~= old(out)@ + ser_tail_from(items@, k as int));
        }
    } else {
        out.push(',');
        push_item(out, &items[k]);
        push_tail_from(out, items, k + 1);
        proof {
            assert(out@ =~= old(out)@ + ser_tail_from(items@, k as int));
        }
    }
}

/// Append the whole item array after its opening bracket.
fn push_block(out: &mut Vec<char>, items: &Vec<ReminderItem>)
    ensures
        final(out)@ == old(out)@ + ser_block(items@),
{
    if items.len() == 0 {
        out.push(']');
        proof {
            assert(out@ =~= old(out)@ + ser_block(items@));
        }
    } else {
        push_item(out, &items[0]);
        push_tail_from(out, items, 1);
        proof {
            assert(out@ =~= old(out)@ + ser_block(items@));
        }
    }
}

impl SchedulerState {
    /// The canonical JSON document for this state.
    pub fn to_json(&self) -> (r: String)
        ensures
            r@ == ser_state(*self),
    {
        let mut out: Vec<char> = Vec::new();
        push_lit(&mut out, "{\"items\":[");
        push_block(&mut out, &self.items);
        push_lit(&mut out, ",\"intervalSeconds\":");
        let mut d = crate::digits::u64_chars(self.interval_seconds);
        push_chars(&mut out, &d);
        push_lit(&mut out, ",\"dailyCount\":");
        d = crate::digits::u64_chars(self.daily_count);
        push_chars(&mut out, &d);
        push_lit(&mut out, ",\"lastResetDate\":");
        push_string(&mut out, self.last_reset_date.as_str());
        push_lit(&mut out, ",\"lastNotificationTime\":");
        d = crate::digits::u64_chars(self.last_notification_time);
        push_chars(&mut out, &d);
        push_lit(&mut out, ",\"isPaused\":");
        if self.is_paused {
            push_lit(&mut out, "true");
        } else {
            push_lit(&mut out, "false");
        }
        push_lit(&mut out, ",\"lastShownItemId\":");
        match &self.last_shown_item_id {
            None => push_lit(&mut out, "null"),
            Some(x) => push_string(&mut out, x.as_str()),
        }
        push_lit(&mut out, "}");
        proof {
            assert(out@ =~= ser_state(*self));
        }
        crate::chars::chars_to_string(&out)
    }
}

/// Append a character vector.
fn push_chars(out: &mut Vec<char>, v: &Vec<char>)
    ensures
        final(out)@ == old(out)@ + v@,
{
    let mut k: usize = 0;
    while k < v.len()
        invariant
            k <= v@.len(),
            out@ == old(out)@ + v@.subrange(0, k as int),
        decreases v@.len() - k,
    {
        let ghost pre = v@.subrange(0, k as int);
        out.push(v[k]);
        k += 1;
        proof {
            assert(v@.subrange(0, k as int) =~= pre.push(v@[k - 1]));
            assert(out@ =~= old(out)@ + v@.subrange(0, k as int));
        }
    }
    proof {
        assert(v@.subrange(0, v@.len() as int) =~= v@);
    }
}


// ---------------------------------------------------------------------------
// Parser, as specification
// ---------------------------------------------------------------------------

/// JSON insignificant whitespace.
pub open spec fn is_ws(c: char) -> bool {
    c == ' ' || c == '\n' || c == '\r' || c == '\t'
}

/// The first index at or after `i` holding no whitespace.
pub open spec fn skip_ws(v: Seq<char>, i: int) -> int
    decreases v.len() - i,
    when 0 <= i <= v.len()
{
    if i < v.len() && is_ws(v[i]) {
        skip_ws(v, i + 1)
    } else {
        i
    }
}

/// Whether the text carries this token at this position.
pub open spec fn starts_with(v: Seq<char>, i: int, tok: Seq<char>) -> bool {
    0 <= i && i + tok.len() <= v.len() && v.subrange(i, i + tok.len()) == tok
}

/// What a backslash escape stands for.
pub open spec fn unesc_code(e: char) -> Option<char> {
    if e == '"' {
        Some('"')
    } else if e == '\\' {
        Some('\\')
    } else if e == '/' {
        Some('/')
    } else if e == 'n' {
        Some('\n')
    } else if e == 'r' {
        Some('\r')
    } else if e == 't' {
        Some('\t')
    } else if e == 'b' {
        Some('\u{0008}')
    } else if e == 'f' {
        Some('\u{000C}')
    } else {
        None
    }
}

/// A string body from position `i` (just after the opening quote) to its
/// closing quote, prefixed by what was read so far.
pub open spec fn p_str(v: Seq<char>, i: int, acc: Seq<char>) -> Option<(Seq<char>, int)>
    decreases v.len() - i,
    when 0 <= i <= v.len()
{
    if i >= v.len() {
        None
    } else if v[i] == '"' {
        Some((acc, i + 1))
    } else if v[i] == '\\' {
        if i + 1 >= v.len() {
            None
        } else {
            match unesc_code(v[i + 1]) {
                Some(c) => p_str(v, i + 2, acc.push(c)),
                None => None,
            }
        }
    } else {
        p_str(v, i + 1, acc.push(v[i]))
    }
}

/// The end of the digit run starting at `i`.
pub open spec fn digits_end(v: Seq<char>, i: int) -> int
    decreases v.len() - i,
    when 0 <= i <= v.len()
{
    if i < v.len() && crate::digits::is_digit(v[i]) {
        digits_end(v, i + 1)
    } else {
        i
    }
}

/// The numeric value of a digit string, most significant digit first.
pub open spec fn val_digits(d: Seq<char>) -> int
    decreases d.len(),
{
    if d.len() == 0 {
        0
    } else {
        val_digits(d.drop_last()) * 10 + crate::digits::digit_val(d.last())
    }
}

/// An unsigned decimal number at `i`: its value and the first position after
/// it, refused when absent or beyond the 64-bit range.
pub open spec fn p_u64(v: Seq<char>, i: int) -> Option<(u64, int)> {
    let e = digits_end(v, i);
    if e == i {
        None
    } else if val_digits(v.subrange(i, e)) > u64::MAX {
        None
    } else {
        Some((val_digits(v.subrange(i, e)) as u64, e))
    }
}

/// A boolean literal at `i`.
pub open spec fn p_bool(v: Seq<char>, i: int) -> Option<(bool, int)> {
    if starts_with(v, i, "true"@) {
        Some((true, i + "true"@.len()))
    } else if starts_with(v, i, "false"@) {
        Some((false, i + "false"@.len()))
    } else {
        None
    }
}

/// The value of a digit string is never negative.
pub proof fn lemma_val_digits_nonneg(d: Seq<char>)
    requires
        forall|k: int| 0 <= k < d.len() ==> crate::digits::is_digit(#[trigger] d[k]),
    ensures
        val_digits(d) >= 0,
    decreases d.len(),
{
    if d.len() > 0 {
        assert(forall|k: int|
            0 <= k < d.drop_last().len() ==> crate::digits::is_digit(#[trigger] d.drop_last()[k]));
        lemma_val_digits_nonneg(d.drop_last());
    }
}

/// A digit string is worth at least any of its prefixes.
pub proof fn lemma_val_digits_prefix(d: Seq<char>, m: int)
    requires
        0 <= m <= d.len(),
        forall|k: int| 0 <= k < d.len() ==> crate::digits::is_digit(#[trigger] d[k]),
    ensures
        val_digits(d) >= val_digits(d.subrange(0, m)),
    decreases d.len() - m,
{
    if m < d.len() {
        let a = d.subrange(0, m);
        let b = d.subrange(0, m + 1);
        assert(b.drop_last() =~= a);
        assert(forall|k: int| 0 <= k < a.len() ==> crate::digits::is_digit(#[trigger] a[k]));
        lemma_val_digits_nonneg(a);
        assert(crate::digits::is_digit(b.last()));
        assert(val_digits(b) == val_digits(a) * 10 + crate::digits::digit_val(b.last()));
        assert(val_digits(b) >= val_digits(a));
        lemma_val_digits_prefix(d, m + 1);
        assert(d.subrange(0, m + 1) == b);
    } else {
        assert(d.subrange(0, m) =~= d);
    }
}

// ---------------------------------------------------------------------------
// Parser, executable
// ---------------------------------------------------------------------------

/// Skip whitespace from `i`.
fn skip_ws_exec(v: &Vec<char>, i: usize) -> (r: usize)
    requires
        i <= v@.len(),
    ensures
        r == skip_ws(v@, i as int),
        i <= r <= v@.len(),
{
    let mut k = i;
    while k < v.len() && (v[k] == ' ' || v[k] == '\n' || v[k] == '\r' || v[k] == '\t')
        invariant
            i <= k <= v@.len(),
            skip_ws(v@, i as int) == skip_ws(v@, k as int),
        decreases v@.len() - k,
    {
        k += 1;
    }
    k
}

/// Whether the text carries the literal at `i`.
fn match_lit(v: &Vec<char>, i: usize, s: &str) -> (b: bool)
    requires
        i <= v@.len(),
    ensures
        b == starts_with(v@, i as int, s@),
{
    let cv = crate::chars::string_chars(s);
    let n = v.len();
    if n - i < cv.len() {
        return false;
    }
    let mut k: usize = 0;
    while k < cv.len()
        invariant
            k <= cv@.len(),
            cv@ == s@,
            n == v@.len(),
            i + cv@.len() <= n,
            forall|m: int| 0 <= m < k ==> v@[i + m] == cv@[m],
        decreases cv@.len() - k,
    {
        if !(v[i + k] == cv[k]) {
            proof {
                assert(!starts_with(v@, i as int, s@)) by {
                    if starts_with(v@, i as int, s@) {
                        assert(v@.subrange(i as int, i + s@.len())[k as int] == v@[i + k]);
                    }
                }
            }
            return false;
        }
        k += 1;
    }
    proof {
        assert(v@.subrange(i as int, i + s@.len()) =~= cv@);
    }
    true
}

/// Parse a string body from just after its opening quote.
fn parse_str(v: &Vec<char>, i: usize) -> (r: Option<(Vec<char>, usize)>)
    requires
        i <= v@.len(),
    ensures
        match r {
            None => p_str(v@, i as int, Seq::empty()) is None,
            Some((s, j)) => p_str(v@, i as int, Seq::empty()) == Some((s@, j as int)) && i < j
                <= v@.len(),
        },
{
    let mut out: Vec<char> = Vec::new();
    let mut k = i;
    loop
        invariant
            i <= k <= v@.len(),
            p_str(v@, i as int, Seq::empty()) == p_str(v@, k as int, out@),
        decreases v@.len() - k,
    {
        if k >= v.len() {
            return None;
        }
        let c = v[k];
        if c == '"' {
            return Some((out, k + 1));
        }
        if c == '\\' {
            if k + 1 >= v.len() {
                return None;
            }
            let e = v[k + 1];
            let c2: char;
            if e == '"' {
                c2 = '"';
            } else if e == '\\' {
                c2 = '\\';
            } else if e == '/' {
                c2 = '/';
            } else if e == 'n' {
                c2 = '\n';
            } else if e == 'r' {
                c2 = '\r';
            } else if e == 't' {
                c2 = '\t';
            } else if e == 'b' {
                c2 = '\u{0008}';
            } else if e == 'f' {
                c2 = '\u{000C}';
            } else {
                return None;
            }
            out.push(c2);
            k = k + 2;
        } else {
            out.push(c);
            k = k + 1;
        }
    }
}

/// Parse an unsigned decimal number at `i`.
fn parse_u64(v: &Vec<char>, i: usize) -> (r: Option<(u64, usize)>)
    requires
        i <= v@.len(),
    ensures
        match r {
            None => p_u64(v@, i as int) is None,
            Some((n, j)) => p_u64(v@, i as int) == Some((n, j as int)) && i < j <= v@.len(),
        },
{
    let mut e = i;
    loop
        invariant
            i <= e <= v@.len(),
            digits_end(v@, i as int) == digits_end(v@, e as int),
            forall|k: int| i <= k < e ==> crate::digits::is_digit(#[trigger] v@[k]),
        ensures
            i <= e <= v@.len(),
            digits_end(v@, i as int) == e,
            forall|k: int| i <= k < e ==> crate::digits::is_digit(#[trigger] v@[k]),
        decreases v@.len() - e,
    {
        if e >= v.len() {
            break;
        }
        let cu = v[e] as u32;
        if !(48 <= cu && cu <= 57) {
            break;
        }
        e += 1;
    }
    if e == i {
        return None;
    }
    let ghost dd = v@.subrange(i as int, e as int);
    proof {
        assert(forall|k: int| 0 <= k < dd.len() ==> crate::digits::is_digit(#[trigger] dd[k]));
    }
    let mut acc: u64 = 0;
    let mut k = i;
    while k < e
        invariant
            i <= k <= e <= v@.len(),
            digits_end(v@, i as int) == e,
            dd == v@.subrange(i as int, e as int),
            forall|m: int| 0 <= m < dd.len() ==> crate::digits::is_digit(#[trigger] dd[m]),
            forall|m: int| i <= m < e ==> crate::digits::is_digit(#[trigger] v@[m]),
            acc as int == val_digits(v@.subrange(i as int, k as int)),
        decreases e - k,
    {
        let cu = v[k] as u32;
        let d = (cu - 48) as u64;
        proof {
            assert(v@.subrange(i as int, k as int + 1).drop_last() =~= v@.subrange(
                i as int,
                k as int,
            ));
            assert(v@.subrange(i as int, k as int + 1).last() == v@[k as int]);
        }
        let m10 = match acc.checked_mul(10) {
            Some(x) => x,
            None => {
                proof {
                    assert(val_digits(v@.subrange(i as int, k as int + 1)) > u64::MAX);
                    assert(v@.subrange(i as int, k as int + 1) =~= dd.subrange(0, k - i + 1));
                    lemma_val_digits_prefix(dd, k - i + 1);
                }
                return None;
            },
        };
        let sum = match m10.checked_add(d) {
            Some(x) => x,
            None => {
                proof {
                    assert(val_digits(v@.subrange(i as int, k as int + 1)) > u64::MAX);
                    assert(v@.subrange(i as int, k as int + 1) =~= dd.subrange(0, k - i + 1));
                    lemma_val_digits_prefix(dd, k - i + 1);
                }
                return None;
            },
        };
        acc = sum;
        k += 1;
    }
    proof {
        assert(v@.subrange(i as int, e as int) =~= dd);
    }
    Some((acc, e))
}

/// Parse a boolean literal at `i`.
fn parse_bool(v: &Vec<char>, i: usize) -> (r: Option<(bool, usize)>)
    requires
        i <= v@.len(),
    ensures
        match r {
            None => p_bool(v@, i as int) is None,
            Some((b, j)) => p_bool(v@, i as int) == Some((b, j as int)) && i < j <= v@.len(),
        },
{
    let n = v.len();
    proof {
        reveal_strlit("true");
        reveal_strlit("false");
        assert(n == v@.len());
    }
    if match_lit(v, i, "true") {
        proof {
            assert(i + 4 <= n);
        }
        Some((true, i + 4))
    } else if match_lit(v, i, "false") {
        proof {
            assert(i + 5 <= n);
        }
        Some((false, i + 5))
    } else {
        None
    }
}


// ---------------------------------------------------------------------------
// Item array and member parsing
// ---------------------------------------------------------------------------

/// One item object: optional whitespace, `{`, an `"id"` member, a comma, a
/// `"text"` member, `}`.
pub open spec fn p_item(v: Seq<char>, i: int) -> Option<((Seq<char>, Seq<char>), int)> {
    let i1 = skip_ws(v, i);
    if i1 < v.len() && v[i1] == '{' {
        let i2 = skip_ws(v, i1 + 1);
        if starts_with(v, i2, "\"id\":"@) {
            let i3 = skip_ws(v, i2 + "\"id\":"@.len());
            if i3 < v.len() && v[i3] == '"' {
                match p_str(v, i3 + 1, Seq::empty()) {
                    Some(r1) => {
                        let i5 = skip_ws(v, r1.1);
                        if i5 < v.len() && v[i5] == ',' {
                            let i6 = skip_ws(v, i5 + 1);
                            if starts_with(v, i6, "\"text\":"@) {
                                let i7 = skip_ws(v, i6 + "\"text\":"@.len());
                                if i7 < v.len() && v[i7] == '"' {
                                    match p_str(v, i7 + 1, Seq::empty()) {
                                        Some(r2) => {
                                            let i9 = skip_ws(v, r2.1);
                                            if i9 < v.len() && v[i9] == '}' {
                                                Some(((r1.0, r2.0), i9 + 1))
                                            } else {
                                                None
                                            }
                                        },
                                        None => None,
                                    }
                                } else {
                                    None
                                }
                            } else {
                                None
                            }
                        } else {
                            None
                        }
                    },
                    None => None,
                }
            } else {
                None
            }
        } else {
            None
        }
    } else {
        None
    }
}

/// The rest of an item array after one item: `]`, or a comma and another
/// item, repeated.
pub open spec fn p_items_more(v: Seq<char>, i: int) -> Option<(Seq<(Seq<char>, Seq<char>)>, int)>
    decreases v.len() - i,
    when 0 <= i <= v.len()
{
    let i1 = skip_ws(v, i);
    if i1 < i || i1 >= v.len() {
        None
    } else if v[i1] == ']' {
        Some((Seq::empty(), i1 + 1))
    } else if v[i1] == ',' {
        match p_item(v, i1 + 1) {
            Some(r) => if r.1 <= i1 + 1 || r.1 > v.len() {
                None
            } else {
                match p_items_more(v, r.1) {
                    Some(r2) => Some((seq![r.0] + r2.0, r2.1)),
                    None => None,
                }
            },
            None => None,
        }
    } else {
        None
    }
}

/// A whole item array after its opening bracket.
pub open spec fn p_items(v: Seq<char>, i: int) -> Option<(Seq<(Seq<char>, Seq<char>)>, int)> {
    let i1 = skip_ws(v, i);
    if 0 <= i1 && i1 < v.len() && v[i1] == ']' {
        Some((Seq::empty(), i1 + 1))
    } else {
        match p_item(v, i) {
            Some(r) => if r.1 < 0 || r.1 > v.len() {
                None
            } else {
                match p_items_more(v, r.1) {
                    Some(r2) => Some((seq![r.0] + r2.0, r2.1)),
                    None => None,
                }
            },
            None => None,
        }
    }
}

/// Parse one item object.
fn parse_item(v: &Vec<char>, i: usize) -> (r: Option<(ReminderItem, usize)>)
    requires
        i <= v@.len(),
    ensures
        match r {
            None => p_item(v@, i as int) is None,
            Some((z, j)) => p_item(v@, i as int) == Some(((z.id@, z.text@), j as int)) && i < j
                <= v@.len(),
        },
{
    let n = v.len();
    let i1 = skip_ws_exec(v, i);
    if !(i1 < n && v[i1] == '{') {
        return None;
    }
    let i2 = skip_ws_exec(v, i1 + 1);
    if !match_lit(v, i2, "\"id\":") {
        return None;
    }
    let tl_id = crate::chars::string_chars("\"id\":").len();
    let i3 = skip_ws_exec(v, i2 + tl_id);
    if !(i3 < n && v[i3] == '"') {
        return None;
    }
    let idv: Vec<char>;
    let i4: usize;
    match parse_str(v, i3 + 1) {
        None => {
            return None;
        },
        Some((sv, j)) => {
            idv = sv;
            i4 = j;
        },
    }
    let i5 = skip_ws_exec(v, i4);
    if !(i5 < n && v[i5] == ',') {
        return None;
    }
    let i6 = skip_ws_exec(v, i5 + 1);
    if !match_lit(v, i6, "\"text\":") {
        return None;
    }
    let tl_text = crate::chars::string_chars("\"text\":").len();
    let i7 = skip_ws_exec(v, i6 + tl_text);
    if !(i7 < n && v[i7] == '"') {
        return None;
    }
    let tv: Vec<char>;
    let i8: usize;
    match parse_str(v, i7 + 1) {
        None => {
            return None;
        },
        Some((sv, j)) => {
            tv = sv;
            i8 = j;
        },
    }
    let i9 = skip_ws_exec(v, i8);
    if !(i9 < n && v[i9] == '}') {
        return None;
    }
    let z = ReminderItem {
        id: crate::chars::chars_to_string(&idv),
        text: crate::chars::chars_to_string(&tv),
    };
    Some((z, i9 + 1))
}

/// Parse a whole item array after its opening bracket.
fn parse_items(v: &Vec<char>, i: usize) -> (r: Option<(Vec<ReminderItem>, usize)>)
    requires
        i <= v@.len(),
    ensures
        match r {
            None => p_items(v@, i as int) is None,
            Some((list, j)) => p_items(v@, i as int) == Some((crate::state::item_pairs(list@),
                j as int,
            )) && i < j <= v@.len(),
        },
{
    let n = v.len();
    let k1 = skip_ws_exec(v, i);
    if k1 < n && v[k1] == ']' {
        let empty_list: Vec<ReminderItem> = Vec::new();
        proof {
            assert(crate::state::item_pairs(empty_list@) =~= Seq::<(Seq<char>, Seq<char>)>::empty());
        }
        return Some((empty_list, k1 + 1));
    }
    let mut list: Vec<ReminderItem> = Vec::new();
    let mut k: usize;
    match parse_item(v, i) {
        None => {
            return None;
        },
        Some((z, j)) => {
            let ghost pair = (z.id@, z.text@);
            list.push(z);
            k = j;
            proof {
                assert(crate::state::item_pairs(list@) =~= seq![pair]);
            }
        },
    }
    loop
        invariant
            i < k <= v@.len(),
            list@.len() >= 1,
            (match p_items_more(v@, k as int) {
                Some(r2) => p_items(v@, i as int) == Some((crate::state::item_pairs(list@) + r2.0,
                    r2.1,
                )),
                None => p_items(v@, i as int) is None,
            }),
        decreases v@.len() - k,
    {
        let k3 = skip_ws_exec(v, k);
        if k3 >= v.len() {
            return None;
        }
        if v[k3] == ']' {
            proof {
                assert(crate::state::item_pairs(list@) + Seq::<(Seq<char>, Seq<char>)>::empty()
                    =~= crate::state::item_pairs(list@));
            }
            return Some((list, k3 + 1));
        }
        if v[k3] == ',' {
            match parse_item(v, k3 + 1) {
                None => {
                    return None;
                },
                Some((z2, j2)) => {
                    let ghost pair2 = (z2.id@, z2.text@);
                    let ghost old_list = list@;
                    list.push(z2);
                    proof {
                        assert(crate::state::item_pairs(list@) =~= crate::state::item_pairs(
                            old_list,
                        ).push(pair2));
                        if p_items_more(v@, j2 as int) is Some {
                            let r2 = p_items_more(v@, j2 as int)->Some_0;
                            assert(crate::state::item_pairs(old_list) + (seq![pair2] + r2.0)
                                =~= crate::state::item_pairs(list@) + r2.0);
                        }
                    }
                    k = j2;
                },
            }
        } else {
            return None;
        }
    }
}

// ---------------------------------------------------------------------------
// Document members
// ---------------------------------------------------------------------------

/// The members read so far from the top-level object, each optional.
pub ghost struct RawFields {
    pub items: Option<Seq<(Seq<char>, Seq<char>)>>,
    pub interval: Option<u64>,
    pub daily: Option<u64>,
    pub reset: Option<Seq<char>>,
    pub last_time: Option<u64>,
    pub paused: Option<bool>,
    pub shown: Option<Option<Seq<char>>>,
}

/// No member read yet.
pub open spec fn no_fields() -> RawFields {
    RawFields {
        items: None,
        interval: None,
        daily: None,
        reset: None,
        last_time: None,
        paused: None,
        shown: None,
    }
}

/// After one member: a comma and further members, or the closing brace.
pub open spec fn p_member_sep(v: Seq<char>, i: int, acc: RawFields) -> Option<(RawFields, int)>
    decreases v.len() - i,
    when 0 <= i <= v.len()
{
    let i1 = skip_ws(v, i);
    if i1 < i || i1 >= v.len() {
        None
    } else if v[i1] == ',' {
        p_members(v, i1 + 1, acc)
    } else if v[i1] == '}' {
        Some((acc, i1 + 1))
    } else {
        None
    }
}

/// The members of the top-level object from position `i` (after `{` or a
/// comma), recorded over `acc`; later occurrences of a member win.
pub open spec fn p_members(v: Seq<char>, i: int, acc: RawFields) -> Option<(RawFields, int)>
    decreases v.len() - i,
    when 0 <= i <= v.len()
{
    let i1 = skip_ws(v, i);
    if i1 < i || i1 >= v.len() {
        None
    } else if v[i1] == '}' {
        Some((acc, i1 + 1))
    } else if starts_with(v, i1, "\"items\":"@) {
        let i2 = skip_ws(v, i1 + "\"items\":"@.len());
        if i2 < v.len() && v[i2] == '[' {
            match p_items(v, i2 + 1) {
                Some(r) => if r.1 <= i1 || r.1 > v.len() {
                    None
                } else {
                    p_member_sep(v, r.1, RawFields { items: Some(r.0), ..acc })
                },
                None => None,
            }
        } else {
            None
        }
    } else if starts_with(v, i1, "\"intervalSeconds\":"@) {
        let i2 = skip_ws(v, i1 + "\"intervalSeconds\":"@.len());
        if 0 <= i2 <= v.len() {
            match p_u64(v, i2) {
                Some(r) => if r.1 <= i1 || r.1 > v.len() {
                    None
                } else {
                    p_member_sep(v, r.1, RawFields { interval: Some(r.0), ..acc })
                },
                None => None,
            }
        } else {
            None
        }
    } else if starts_with(v, i1, "\"dailyCount\":"@) {
        let i2 = skip_ws(v, i1 + "\"dailyCount\":"@.len());
        if 0 <= i2 <= v.len() {
            match p_u64(v, i2) {
                Some(r) => if r.1 <= i1 || r.1 > v.len() {
                    None
                } else {
                    p_member_sep(v, r.1, RawFields { daily: Some(r.0), ..acc })
                },
                None => None,
            }
        } else {
            None
        }
    } else if starts_with(v, i1, "\"lastResetDate\":"@) {
        let i2 = skip_ws(v, i1 + "\"lastResetDate\":"@.len());
        if i2 < v.len() && v[i2] == '"' {
            match p_str(v, i2 + 1, Seq::empty()) {
                Some(r) => if r.1 <= i1 || r.1 > v.len() {
                    None
                } else {
                    p_member_sep(v, r.1, RawFields { reset: Some(r.0), ..acc })
                },
                None => None,
            }
        } else {
            None
        }
    } else if starts_with(v, i1, "\"lastNotificationTime\":"@) {
        let i2 = skip_ws(v, i1 + "\"lastNotificationTime\":"@.len());
        if 0 <= i2 <= v.len() {
            match p_u64(v, i2) {
                Some(r) => if r.1 <= i1 || r.1 > v.len() {
                    None
                } else {
                    p_member_sep(v, r.1, RawFields { last_time: Some(r.0), ..acc })
                },
                None => None,
            }
        } else {
            None
        }
    } else if starts_with(v, i1, "\"isPaused\":"@) {
        let i2 = skip_ws(v, i1 + "\"isPaused\":"@.len());
        match p_bool(v, i2) {
            Some(r) => if r.1 <= i1 || r.1 > v.len() {
                None
            } else {
                p_member_sep(v, r.1, RawFields { paused: Some(r.0), ..acc })
            },
            None => None,
        }
    } else if starts_with(v, i1, "\"lastShownItemId\":"@) {
        let i2 = skip_ws(v, i1 + "\"lastShownItemId\":"@.len());
        if starts_with(v, i2, "null"@) {
            let j = i2 + "null"@.len();
            if j <= i1 || j > v.len() {
                None
            } else {
                p_member_sep(v, j, RawFields { shown: Some(None), ..acc })
            }
        } else if i2 < v.len() && v[i2] == '"' {
            match p_str(v, i2 + 1, Seq::empty()) {
                Some(r) => if r.1 <= i1 || r.1 > v.len() {
                    None
                } else {
                    p_member_sep(v, r.1, RawFields { shown: Some(Some(r.0)), ..acc })
                },
                None => None,
            }
        } else {
            None
        }
    } else {
        None
    }
}


/// The members read so far, as executable data.
struct RawExec {
    items: Option<Vec<ReminderItem>>,
    interval: Option<u64>,
    daily: Option<u64>,
    reset: Option<String>,
    last_time: Option<u64>,
    paused: Option<bool>,
    shown: Option<Option<String>>,
}

/// The ghost view of the members read so far.
spec fn raw_view(r: RawExec) -> RawFields {
    RawFields {
        items: match r.items {
            Some(l) => Some(crate::state::item_pairs(l@)),
            None => None,
        },
        interval: r.interval,
        daily: r.daily,
        reset: match r.reset {
            Some(s) => Some(s@),
            None => None,
        },
        last_time: r.last_time,
        paused: r.paused,
        shown: match r.shown {
            Some(Some(s)) => Some(Some(s@)),
            Some(None) => Some(None),
            None => None,
        },
    }
}

/// Parse the members of the top-level object from just after `{`.
fn parse_members(v: &Vec<char>, i: usize) -> (r: Option<(RawExec, usize)>)
    requires
        i <= v@.len(),
    ensures
        match r {
            None => p_members(v@, i as int, no_fields()) is None,
            Some((f, j)) => p_members(v@, i as int, no_fields()) == Some((raw_view(f), j as int))
                && j <= v@.len(),
        },
{
    let n = v.len();
    let mut acc = RawExec {
        items: None,
        interval: None,
        daily: None,
        reset: None,
        last_time: None,
        paused: None,
        shown: None,
    };
    let mut k = i;
    loop
        invariant
            i <= k <= v@.len(),
            n == v@.len(),
            p_members(v@, i as int, no_fields()) == p_members(v@, k as int, raw_view(acc)),
        decreases v@.len() - k,
    {
        let k1 = skip_ws_exec(v, k);
        if k1 >= n {
            return None;
        }
        if v[k1] == '}' {
            return Some((acc, k1 + 1));
        }
        let j: usize;
        if match_lit(v, k1, "\"items\":") {
            let tl = crate::chars::string_chars("\"items\":").len();
            let k2 = skip_ws_exec(v, k1 + tl);
            if !(k2 < n && v[k2] == '[') {
                return None;
            }
            match parse_items(v, k2 + 1) {
                None => {
                    return None;
                },
                Some((list, jj)) => {
                    acc.items = Some(list);
                    j = jj;
                },
            }
        } else if match_lit(v, k1, "\"intervalSeconds\":") {
            let tl = crate::chars::string_chars("\"intervalSeconds\":").len();
            let k2 = skip_ws_exec(v, k1 + tl);
            match parse_u64(v, k2) {
                None => {
                    return None;
                },
                Some((x, jj)) => {
                    acc.interval = Some(x);
                    j = jj;
                },
            }
        } else if match_lit(v, k1, "\"dailyCount\":") {
            let tl = crate::chars::string_chars("\"dailyCount\":").len();
            let k2 = skip_ws_exec(v, k1 + tl);
            match parse_u64(v, k2) {
                None => {
                    return None;
                },
                Some((x, jj)) => {
                    acc.daily = Some(x);
                    j = jj;
                },
            }
        } else if match_lit(v, k1, "\"lastResetDate\":") {
            let tl = crate::chars::string_chars("\"lastResetDate\":").len();
            let k2 = skip_ws_exec(v, k1 + tl);
            if !(k2 < n && v[k2] == '"') {
                return None;
            }
            match parse_str(v, k2 + 1) {
                None => {
                    return None;
                },
                Some((sv, jj)) => {
                    acc.reset = Some(crate::chars::chars_to_string(&sv));
                    j = jj;
                },
            }
        } else if match_lit(v, k1, "\"lastNotificationTime\":") {
            let tl = crate::chars::string_chars("\"lastNotificationTime\":").len();
            let k2 = skip_ws_exec(v, k1 + tl);
            match parse_u64(v, k2) {
                None => {
                    return None;
                },
                Some((x, jj)) => {
                    acc.last_time = Some(x);
                    j = jj;
                },
            }
        } else if match_lit(v, k1, "\"isPaused\":") {
            let tl = crate::chars::string_chars("\"isPaused\":").len();
            let k2 = skip_ws_exec(v, k1 + tl);
            match parse_bool(v, k2) {
                None => {
                    return None;
                },
                Some((x, jj)) => {
                    acc.paused = Some(x);
                    j = jj;
                },
            }
        } else if match_lit(v, k1, "\"lastShownItemId\":") {
            let tl = crate::chars::string_chars("\"lastShownItemId\":").len();
            let k2 = skip_ws_exec(v, k1 + tl);
            if match_lit(v, k2, "null") {
                proof {
                    reveal_strlit("null");
                }
                acc.shown = Some(None);
                j = k2 + 4;
            } else if k2 < n && v[k2] == '"' {
                match parse_str(v, k2 + 1) {
                    None => {
                        return None;
                    },
                    Some((sv, jj)) => {
                        acc.shown = Some(Some(crate::chars::chars_to_string(&sv)));
                        j = jj;
                    },
                }
            } else {
                return None;
            }
        } else {
            return None;
        }
        let k3 = skip_ws_exec(v, j);
        if k3 >= n {
            return None;
        }
        if v[k3] == ',' {
            k = k3 + 1;
        } else if v[k3] == '}' {
            return Some((acc, k3 + 1));
        } else {
            return None;
        }
    }
}

// ---------------------------------------------------------------------------
// Loading
// ---------------------------------------------------------------------------

/// A state reduced to plain values: what loading yields and what two equal
/// states share.
pub ghost struct StateV {
    pub items: Seq<(Seq<char>, Seq<char>)>,
    pub interval: u64,
    pub daily: u64,
    pub reset: Seq<char>,
    pub last_time: u64,
    pub paused: bool,
    pub shown: Option<Seq<char>>,
}

/// The plain-value view of a state.
pub open spec fn state_view(s: SchedulerState) -> StateV {
    StateV {
        items: crate::state::item_pairs(s.items@),
        interval: s.interval_seconds,
        daily: s.daily_count,
        reset: s.last_reset_date@,
        last_time: s.last_notification_time,
        paused: s.is_paused,
        shown: crate::state::shown_view(s),
    }
}

/// The plain-value view of the default state.
pub open spec fn default_view(today: Seq<char>) -> StateV {
    StateV {
        items: crate::state::default_items_v(),
        interval: crate::state::DEFAULT_INTERVAL_SECONDS,
        daily: 0,
        reset: today,
        last_time: 0,
        paused: false,
        shown: None,
    }
}

/// No two pairs share an id.
pub open spec fn pairs_unique(ps: Seq<(Seq<char>, Seq<char>)>) -> bool {
    forall|a: int, b: int|
        0 <= a < ps.len() && 0 <= b < ps.len() && a != b ==> (#[trigger] ps[a]).0 != (
        #[trigger] ps[b]).0
}

/// What the parsed members amount to: each missing member takes its
/// default, the interval is clamped to at least 1, and items with repeated
/// ids send the whole document back to the default state.
pub open spec fn assemble(f: RawFields, today: Seq<char>) -> StateV {
    let items = match f.items {
        Some(l) => l,
        None => crate::state::default_items_v(),
    };
    if pairs_unique(items) {
        StateV {
            items,
            interval: match f.interval {
                Some(x) => if x >= 1 {
                    x
                } else {
                    1u64
                },
                None => crate::state::DEFAULT_INTERVAL_SECONDS,
            },
            daily: match f.daily {
                Some(x) => x,
                None => 0,
            },
            reset: match f.reset {
                Some(x) => x,
                None => today,
            },
            last_time: match f.last_time {
                Some(x) => x,
                None => 0,
            },
            paused: match f.paused {
                Some(x) => x,
                None => false,
            },
            shown: match f.shown {
                Some(x) => x,
                None => None,
            },
        }
    } else {
        default_view(today)
    }
}

/// What loading a document yields: the parsed members assembled with their
/// defaults, or the default state when the document does not parse.
pub open spec fn spec_load(doc: Seq<char>, today: Seq<char>) -> StateV {
    let i1 = skip_ws(doc, 0);
    if 0 <= i1 && i1 < doc.len() && doc[i1] == '{' {
        match p_members(doc, i1 + 1, no_fields()) {
            Some(r) => if 0 <= r.1 <= doc.len() && skip_ws(doc, r.1) == doc.len() {
                assemble(r.0, today)
            } else {
                default_view(today)
            },
            None => default_view(today),
        }
    } else {
        default_view(today)
    }
}

impl SchedulerState {
    /// Load a state from a JSON document.  A document that does not parse,
    /// or whose items repeat an id, falls back to the default state with the
    /// given date; a missing member falls back to its own default.
    pub fn load_from_json(text: &str, today: String) -> (s: SchedulerState)
        ensures
            wf(s),
            state_view(s) == spec_load(text@, today@),
    {
        let ghost today_v = today@;
        let v = crate::chars::string_chars(text);
        let n = v.len();
        let k1 = skip_ws_exec(&v, 0);
        if !(k1 < n && v[k1] == '{') {
            let d = SchedulerState::default_state(today);
            proof {
                assert(state_view(d) == default_view(today_v));
            }
            return d;
        }
        match parse_members(&v, k1 + 1) {
            None => {
                let d = SchedulerState::default_state(today);
                proof {
                    assert(state_view(d) == default_view(today_v));
                }
                d
            },
            Some((f, j)) => {
                let k2 = skip_ws_exec(&v, j);
                if k2 != n {
                    let d = SchedulerState::default_state(today);
                    proof {
                        assert(state_view(d) == default_view(today_v));
                    }
                    return d;
                }
                let ghost fv = raw_view(f);
                let items: Vec<ReminderItem> = match f.items {
                    Some(l) => l,
                    None => crate::state::default_items(),
                };
                if !crate::state::all_ids_unique(&items) {
                    proof {
                        let ps = match fv.items {
                            Some(l) => l,
                            None => crate::state::default_items_v(),
                        };
                        assert(ps == crate::state::item_pairs(items@));
                        assert forall|a: int, b: int|
                            0 <= a < items@.len() && 0 <= b < items@.len() && a != b && items@[
                            a].id@ == items@[b].id@ implies !pairs_unique(ps) by {
                            assert(ps[a].0 == items@[a].id@ && ps[b].0 == items@[b].id@);
                        }
                    }
                    let d = SchedulerState::default_state(today);
                    proof {
                        assert(state_view(d) == default_view(today_v));
                    }
                    return d;
                }
                proof {
                    let ps = match fv.items {
                        Some(l) => l,
                        None => crate::state::default_items_v(),
                    };
                    assert(ps == crate::state::item_pairs(items@));
                    assert forall|a: int, b: int|
                        0 <= a < ps.len() && 0 <= b < ps.len() && a != b implies (
                    #[trigger] ps[a]).0 != (#[trigger] ps[b]).0 by {
                        assert(ps[a].0 == items@[a].id@ && ps[b].0 == items@[b].id@);
                    }
                }
                let interval: u64 = match f.interval {
                    Some(x) => if x >= 1 {
                        x
                    } else {
                        1
                    },
                    None => crate::state::DEFAULT_INTERVAL_SECONDS,
                };
                let daily: u64 = match f.daily {
                    Some(x) => x,
                    None => 0,
                };
                let reset: String = match f.reset {
                    Some(x) => x,
                    None => today,
                };
                let last_time: u64 = match f.last_time {
                    Some(x) => x,
                    None => 0,
                };
                let paused: bool = match f.paused {
                    Some(x) => x,
                    None => false,
                };
                let shown: Option<String> = match f.shown {
                    Some(x) => x,
                    None => None,
                };
                let s = SchedulerState {
                    items,
                    interval_seconds: interval,
                    daily_count: daily,
                    last_reset_date: reset,
                    last_notification_time: last_time,
                    is_paused: paused,
                    last_shown_item_id: shown,
                };
                proof {
                    assert(state_view(s) == assemble(fv, today_v));
                }
                s
            },
        }
    }

    /// Load a state from a JSON document against the current local date, as
    /// done at process start; the date comes from the environment, so the
    /// contract holds for whatever it was.
    pub fn load_from_json_now(text: &str) -> (s: SchedulerState)
        ensures
            wf(s),
            exists|today: Seq<char>| state_view(s) == spec_load(text@, today),
    {
        let t = crate::clock::today_string();
        let ghost tv = t@;
        let s = SchedulerState::load_from_json(text, t);
        proof {
            assert(state_view(s) == spec_load(text@, tv));
        }
        s
    }
}


// ---------------------------------------------------------------------------
// Round trip: parsing what the serializer wrote
// ---------------------------------------------------------------------------

/// A run of digits followed by a non-digit (or the end) is scanned exactly
/// to its end.
pub proof fn lemma_digits_end_run(v: Seq<char>, i: int, e: int)
    requires
        0 <= i <= e <= v.len(),
        forall|k: int| i <= k < e ==> crate::digits::is_digit(#[trigger] v[k]),
        e == v.len() || !crate::digits::is_digit(v[e]),
    ensures
        digits_end(v, i) == e,
    decreases e - i,
{
    if i < e {
        lemma_digits_end_run(v, i + 1, e);
    }
}

/// Rendering a number and reading the digits back gives the number.
pub proof fn lemma_val_dec(n: nat)
    ensures
        val_digits(crate::digits::dec_chars(n)) == n,
    decreases n,
{
    let d = crate::digits::dec_chars(n);
    assert(val_digits(Seq::<char>::empty()) == 0);
    assert('0' as u32 == 48 && '1' as u32 == 49 && '2' as u32 == 50 && '3' as u32 == 51
        && '4' as u32 == 52 && '5' as u32 == 53 && '6' as u32 == 54 && '7' as u32 == 55
        && '8' as u32 == 56 && '9' as u32 == 57);
    if n < 10 {
        assert(d =~= seq![crate::digits::digit_char(n as int)]);
        assert(d.drop_last() =~= Seq::<char>::empty());
        assert(crate::digits::digit_val(crate::digits::digit_char(n as int)) == n);
    } else {
        lemma_val_dec(n / 10);
        assert(d.drop_last() =~= crate::digits::dec_chars(n / 10));
        assert(d.last() == crate::digits::digit_char((n % 10) as int));
        assert(crate::digits::digit_val(crate::digits::digit_char((n % 10) as int)) == n % 10);
    }
}

/// A rendered number bounded by a non-digit parses back to itself.
pub proof fn lemma_p_u64_canonical(v: Seq<char>, i: int, n: u64)
    requires
        0 <= i,
        i + crate::digits::dec_chars(n as nat).len() < v.len(),
        v.subrange(i, i + crate::digits::dec_chars(n as nat).len()) == crate::digits::dec_chars(
            n as nat,
        ),
        !crate::digits::is_digit(v[i + crate::digits::dec_chars(n as nat).len()]),
    ensures
        p_u64(v, i) == Some((n, i + crate::digits::dec_chars(n as nat).len())),
{
    let d = crate::digits::dec_chars(n as nat);
    let e = i + d.len();
    crate::digits::lemma_dec_chars_digits(n as nat);
    assert forall|k: int| i <= k < e implies crate::digits::is_digit(#[trigger] v[k]) by {
        assert(v[k] == v.subrange(i, e)[k - i]);
    }
    lemma_digits_end_run(v, i, e);
    lemma_val_dec(n as nat);
    assert(d.len() >= 1);
}


/// An escaped string body followed by a closing quote parses back to the
/// string.
pub proof fn lemma_p_str_canonical(v: Seq<char>, i: int, s: Seq<char>, acc: Seq<char>)
    requires
        0 <= i,
        i + esc(s).len() + 1 <= v.len(),
        v.subrange(i, i + esc(s).len() + 1) == esc(s) + seq!['"'],
    ensures
        p_str(v, i, acc) == Some((acc + s, i + esc(s).len() + 1)),
    decreases s.len(),
{
    let w = v.subrange(i, i + esc(s).len() + 1);
    if s.len() == 0 {
        assert(esc(s).len() == 0);
        assert(v[i] == w[0]);
        assert(w[0] == '"');
        assert(acc + s =~= acc);
    } else {
        let c = s[0];
        let s2 = s.drop_first();
        assert(esc(s) == esc_char(c) + esc(s2));
        let esc1 = esc_char(c);
        if c == '"' || c == '\\' || c == '\n' || c == '\r' || c == '\t' {
            let code: char = if c == '"' {
                '"'
            } else if c == '\\' {
                '\\'
            } else if c == '\n' {
                'n'
            } else if c == '\r' {
                'r'
            } else {
                't'
            };
            assert(esc1 =~= seq!['\\', code]);
            assert(v[i] == w[0] && w[0] == '\\');
            assert(v[i + 1] == w[1] && w[1] == code);
            assert(unesc_code(code) == Some(c));
            assert(v.subrange(i + 2, i + 2 + esc(s2).len() + 1) =~= esc(s2) + seq!['"']) by {
                assert forall|m: int| 0 <= m < esc(s2).len() + 1 implies v.subrange(
                    i + 2,
                    i + 2 + esc(s2).len() + 1,
                )[m] == (esc(s2) + seq!['"'])[m] by {
                    assert(v.subrange(i + 2, i + 2 + esc(s2).len() + 1)[m] == w[m + 2]);
                    assert(w[m + 2] == (esc(s) + seq!['"'])[m + 2]);
                }
            }
            lemma_p_str_canonical(v, i + 2, s2, acc.push(c));
            assert(acc.push(c) + s2 =~= acc + s);
            assert(p_str(v, i, acc) == p_str(v, i + 2, acc.push(c)));
        } else {
            assert(esc1 =~= seq![c]);
            assert(v[i] == w[0] && w[0] == c);
            assert(v.subrange(i + 1, i + 1 + esc(s2).len() + 1) =~= esc(s2) + seq!['"']) by {
                assert forall|m: int| 0 <= m < esc(s2).len() + 1 implies v.subrange(
                    i + 1,
                    i + 1 + esc(s2).len() + 1,
                )[m] == (esc(s2) + seq!['"'])[m] by {
                    assert(v.subrange(i + 1, i + 1 + esc(s2).len() + 1)[m] == w[m + 1]);
                    assert(w[m + 1] == (esc(s) + seq!['"'])[m + 1]);
                }
            }
            lemma_p_str_canonical(v, i + 1, s2, acc.push(c));
            assert(acc.push(c) + s2 =~= acc + s);
            assert(p_str(v, i, acc) == p_str(v, i + 1, acc.push(c)));
        }
    }
}


/// A slice of an identified region of the text equals the same slice of the
/// region's contents.
pub proof fn lemma_sub_at(v: Seq<char>, i: int, w: Seq<char>, a: int, b: int)
    requires
        0 <= i,
        i + w.len() <= v.len(),
        v.subrange(i, i + w.len()) == w,
        0 <= a <= b <= w.len(),
    ensures
        v.subrange(i + a, i + b) == w.subrange(a, b),
{
    assert(v.subrange(i + a, i + b) =~= w.subrange(a, b)) by {
        assert forall|m: int| 0 <= m < b - a implies v.subrange(i + a, i + b)[m] == w.subrange(
            a,
            b,
        )[m] by {
            assert(v.subrange(i, i + w.len())[a + m] == v[i + a + m]);
        }
    }
}

/// A character of an identified region of the text.
pub proof fn lemma_char_at(v: Seq<char>, i: int, w: Seq<char>, a: int)
    requires
        0 <= i,
        i + w.len() <= v.len(),
        v.subrange(i, i + w.len()) == w,
        0 <= a < w.len(),
    ensures
        v[i + a] == w[a],
{
    assert(v.subrange(i, i + w.len())[a] == v[i + a]);
}

/// A serialized item object parses back to its id and text.
pub proof fn lemma_p_item_canonical(v: Seq<char>, i: int, z: ReminderItem)
    requires
        0 <= i,
        i + ser_item(z).len() <= v.len(),
        v.subrange(i, i + ser_item(z).len()) == ser_item(z),
    ensures
        p_item(v, i) == Some(((z.id@, z.text@), i + ser_item(z).len())),
        ser_item(z).len() >= 17,
{
    reveal_strlit("{\"id\":");
    reveal_strlit("\"id\":");
    reveal_strlit(",\"text\":");
    reveal_strlit("\"text\":");
    reveal_strlit("}");
    let w = ser_item(z);
    let a = "{\"id\":"@;
    let sid = ser_string(z.id@);
    let b = ",\"text\":"@;
    let stx = ser_string(z.text@);
    let cbr = "}"@;
    assert(w == a + sid + b + stx + cbr);
    let lsid = sid.len() as int;
    let lstx = stx.len() as int;
    let q1 = i + 6;
    let q2 = q1 + lsid;
    let q3 = q2 + 8;
    let q4 = q3 + lstx;
    assert(w.len() == 6 + lsid + 8 + lstx + 1);
    assert(lsid >= 2 && lstx >= 2);
    // the pieces of the item, located in the text
    assert(w.subrange(0, 6) =~= a);
    assert(w.subrange(6, 6 + lsid) =~= sid);
    assert(w.subrange(6 + lsid, 6 + lsid + 8) =~= b);
    assert(w.subrange(6 + lsid + 8, 6 + lsid + 8 + lstx) =~= stx);
    lemma_sub_at(v, i, w, 0, 6);
    lemma_sub_at(v, i, w, 6, 6 + lsid);
    lemma_sub_at(v, i, w, 6 + lsid, 6 + lsid + 8);
    lemma_sub_at(v, i, w, 6 + lsid + 8, 6 + lsid + 8 + lstx);
    lemma_char_at(v, i, w, 0);
    lemma_char_at(v, i, w, 1);
    lemma_char_at(v, i, w, 6);
    lemma_char_at(v, i, w, 6 + lsid);
    lemma_char_at(v, i, w, 6 + lsid + 1);
    lemma_char_at(v, i, w, 6 + lsid + 8);
    lemma_char_at(v, i, w, w.len() - 1);
    assert(w[0] == '{' && w[1] == '"');
    assert(w[6] == sid[0] && sid[0] == '"');
    assert(w[6 + lsid] == b[0] && b[0] == ',');
    assert(w[6 + lsid + 1] == b[1] && b[1] == '"');
    assert(w[6 + lsid + 8] == stx[0] && stx[0] == '"');
    assert(w[w.len() - 1] == cbr[0] && cbr[0] == '}');
    // walk the parser
    assert(skip_ws(v, i) == i);
    assert(skip_ws(v, i + 1) == i + 1);
    assert(starts_with(v, i + 1, "\"id\":"@)) by {
        lemma_sub_at(v, i, w, 1, 6);
        assert(w.subrange(1, 6) =~= "\"id\":"@);
    }
    assert(skip_ws(v, q1) == q1) by {
        assert(v[q1] == '"');
    }
    assert(sid.subrange(1, lsid) =~= esc(z.id@) + seq!['"']);
    lemma_sub_at(v, q1, sid, 1, lsid);
    lemma_p_str_canonical(v, q1 + 1, z.id@, Seq::empty());
    assert(Seq::<char>::empty() + z.id@ =~= z.id@);
    assert(p_str(v, q1 + 1, Seq::empty()) == Some((z.id@, q2)));
    assert(skip_ws(v, q2) == q2) by {
        assert(v[q2] == ',');
    }
    assert(skip_ws(v, q2 + 1) == q2 + 1) by {
        assert(v[q2 + 1] == '"');
    }
    assert(starts_with(v, q2 + 1, "\"text\":"@)) by {
        lemma_sub_at(v, q2, b, 1, 8);
        assert(b.subrange(1, 8) =~= "\"text\":"@);
    }
    assert(skip_ws(v, q3) == q3) by {
        assert(v[q3] == '"');
    }
    assert(stx.subrange(1, lstx) =~= esc(z.text@) + seq!['"']);
    lemma_sub_at(v, q3, stx, 1, lstx);
    lemma_p_str_canonical(v, q3 + 1, z.text@, Seq::empty());
    assert(Seq::<char>::empty() + z.text@ =~= z.text@);
    assert(p_str(v, q3 + 1, Seq::empty()) == Some((z.text@, q4)));
    assert(skip_ws(v, q4) == q4) by {
        assert(v[q4] == '}');
    }
    assert(v[q4] == '}');
}


/// The (id, text) pairs of the items from index `k` on.
pub open spec fn tail_pairs(items: Seq<ReminderItem>, k: int) -> Seq<(Seq<char>, Seq<char>)>
    decreases items.len() - k,
    when 0 <= k <= items.len()
{
    if k == items.len() {
        Seq::empty()
    } else {
        seq![(items[k].id@, items[k].text@)] + tail_pairs(items, k + 1)
    }
}

/// The pairs from index `k` on are the corresponding slice of all pairs.
pub proof fn lemma_tail_pairs(items: Seq<ReminderItem>, k: int)
    requires
        0 <= k <= items.len(),
    ensures
        tail_pairs(items, k) == crate::state::item_pairs(items).subrange(k, items.len() as int),
    decreases items.len() - k,
{
    if k == items.len() {
        assert(crate::state::item_pairs(items).subrange(k, items.len() as int) =~= Seq::<(
            Seq<char>,
            Seq<char>,
        )>::empty());
    } else {
        lemma_tail_pairs(items, k + 1);
        assert(tail_pairs(items, k) =~= crate::state::item_pairs(items).subrange(
            k,
            items.len() as int,
        ));
    }
}

/// A serialized item tail (comma-led items and the closing bracket) parses
/// back to the corresponding pairs.
pub proof fn lemma_p_items_more_canonical(v: Seq<char>, i: int, items: Seq<ReminderItem>, k: int)
    requires
        0 <= i,
        0 <= k <= items.len(),
        i + ser_tail_from(items, k).len() <= v.len(),
        v.subrange(i, i + ser_tail_from(items, k).len()) == ser_tail_from(items, k),
    ensures
        p_items_more(v, i) == Some((tail_pairs(items, k), i + ser_tail_from(items, k).len())),
    decreases items.len() - k,
{
    let w = ser_tail_from(items, k);
    if k == items.len() {
        assert(w =~= seq![']']);
        lemma_char_at(v, i, w, 0);
        assert(skip_ws(v, i) == i);
    } else {
        let z = items[k];
        let li = ser_item(z).len() as int;
        let rest = ser_tail_from(items, k + 1);
        assert(w == seq![','] + ser_item(z) + rest);
        assert(w.len() == 1 + li + rest.len());
        lemma_char_at(v, i, w, 0);
        assert(w[0] == ',');
        assert(skip_ws(v, i) == i);
        assert(w.subrange(1, 1 + li) =~= ser_item(z));
        lemma_sub_at(v, i, w, 1, 1 + li);
        lemma_p_item_canonical(v, i + 1, z);
        let j = i + 1 + li;
        assert(w.subrange(1 + li, w.len() as int) =~= rest);
        lemma_sub_at(v, i, w, 1 + li, w.len() as int);
        lemma_p_items_more_canonical(v, j, items, k + 1);
        assert(seq![(z.id@, z.text@)] + tail_pairs(items, k + 1) == tail_pairs(items, k));
    }
}

/// A serialized item array parses back to all pairs.
pub proof fn lemma_p_items_canonical(v: Seq<char>, i: int, items: Seq<ReminderItem>)
    requires
        0 <= i,
        i + ser_block(items).len() <= v.len(),
        v.subrange(i, i + ser_block(items).len()) == ser_block(items),
    ensures
        p_items(v, i) == Some((crate::state::item_pairs(items), i + ser_block(items).len())),
{
    let w = ser_block(items);
    if items.len() == 0 {
        assert(w =~= seq![']']);
        lemma_char_at(v, i, w, 0);
        assert(skip_ws(v, i) == i);
        assert(crate::state::item_pairs(items) =~= Seq::<(Seq<char>, Seq<char>)>::empty());
    } else {
        let z = items[0];
        let li = ser_item(z).len() as int;
        let rest = ser_tail_from(items, 1);
        assert(w == ser_item(z) + rest);
        assert(w.subrange(0, li) =~= ser_item(z));
        lemma_sub_at(v, i, w, 0, li);
        lemma_p_item_canonical(v, i, z);
        reveal_strlit("{\"id\":");
        assert(ser_item(z)[0] == '{') by {
            assert(ser_item(z) == "{\"id\":"@ + ser_string(z.id@) + ",\"text\":"@ + ser_string(
                z.text@,
            ) + "}"@);
            assert(("{\"id\":"@).len() == 6);
        }
        lemma_char_at(v, i, w, 0);
        assert(v[i] == '{');
        assert(skip_ws(v, i) == i);
        let j = i + li;
        assert(w.subrange(li, w.len() as int) =~= rest);
        lemma_sub_at(v, i, w, li, w.len() as int);
        lemma_p_items_more_canonical(v, j, items, 1);
        lemma_tail_pairs(items, 0);
        lemma_tail_pairs(items, 1);
        assert(seq![(z.id@, z.text@)] + tail_pairs(items, 1) =~= tail_pairs(items, 0));
        assert(tail_pairs(items, 0) =~= crate::state::item_pairs(items));
    }
}


/// A position that carries one token cannot carry a token that differs from
/// it at some index.
pub proof fn lemma_not_tok(v: Seq<char>, p: int, good: Seq<char>, bad: Seq<char>, idx: int)
    requires
        starts_with(v, p, good),
        0 <= idx < good.len(),
        idx < bad.len(),
        good[idx] != bad[idx],
    ensures
        !starts_with(v, p, bad),
{
    assert(v.subrange(p, p + good.len())[idx] == v[p + idx]);
    if starts_with(v, p, bad) {
        assert(v.subrange(p, p + bad.len())[idx] == v[p + idx]);
    }
}

/// Where each piece of the canonical document lies.
#[verifier::rlimit(100)]
#[verifier::spinoff_prover]
pub proof fn lemma_ser_state_layout(s: SchedulerState)
    ensures
        ({
            let doc = ser_state(s);
            let blk = ser_block(s.items@);
            let n1 = crate::digits::dec_chars(s.interval_seconds as nat);
            let n2 = crate::digits::dec_chars(s.daily_count as nat);
            let sr = ser_string(s.last_reset_date@);
            let n3 = crate::digits::dec_chars(s.last_notification_time as nat);
            let bl = ser_bool(s.is_paused);
            let sh = ser_shown(crate::state::shown_view(s));
            let l1 = 10int;
            let l2 = l1 + blk.len();
            let l3 = l2 + 19;
            let l4 = l3 + n1.len();
            let l5 = l4 + 14;
            let l6 = l5 + n2.len();
            let l7 = l6 + 17;
            let l8 = l7 + sr.len();
            let l9 = l8 + 24;
            let l10 = l9 + n3.len();
            let l11 = l10 + 12;
            let l12 = l11 + bl.len();
            let l13 = l12 + 19;
            let l14 = l13 + sh.len();
            &&& doc.len() == l14 + 1
            &&& doc.subrange(l1, l2) == blk
            &&& doc.subrange(l3, l4) == n1
            &&& doc.subrange(l5, l6) == n2
            &&& doc.subrange(l7, l8) == sr
            &&& doc.subrange(l9, l10) == n3
            &&& doc.subrange(l11, l12) == bl
            &&& doc.subrange(l13, l14) == sh
            &&& starts_with(doc, 1, "\"items\":"@)
            &&& starts_with(doc, l2 + 1, "\"intervalSeconds\":"@)
            &&& starts_with(doc, l4 + 1, "\"dailyCount\":"@)
            &&& starts_with(doc, l6 + 1, "\"lastResetDate\":"@)
            &&& starts_with(doc, l8 + 1, "\"lastNotificationTime\":"@)
            &&& starts_with(doc, l10 + 1, "\"isPaused\":"@)
            &&& starts_with(doc, l12 + 1, "\"lastShownItemId\":"@)
            &&& doc[0] == '{' && doc[1] == '"' && doc[9] == '['
            &&& doc[l2] == ',' && doc[l2 + 1] == '"'
            &&& doc[l4] == ',' && doc[l4 + 1] == '"'
            &&& doc[l6] == ',' && doc[l6 + 1] == '"'
            &&& doc[l8] == ',' && doc[l8 + 1] == '"'
            &&& doc[l10] == ',' && doc[l10 + 1] == '"'
            &&& doc[l12] == ',' && doc[l12 + 1] == '"'
            &&& doc[l14] == '}'
            &&& !is_ws(doc[l1])
        }),
{
    reveal_strlit("{\"items\":[");
    reveal_strlit("\"items\":");
    reveal_strlit(",\"intervalSeconds\":");
    reveal_strlit("\"intervalSeconds\":");
    reveal_strlit(",\"dailyCount\":");
    reveal_strlit("\"dailyCount\":");
    reveal_strlit(",\"lastResetDate\":");
    reveal_strlit("\"lastResetDate\":");
    reveal_strlit(",\"lastNotificationTime\":");
    reveal_strlit("\"lastNotificationTime\":");
    reveal_strlit(",\"isPaused\":");
    reveal_strlit("\"isPaused\":");
    reveal_strlit(",\"lastShownItemId\":");
    reveal_strlit("\"lastShownItemId\":");
    reveal_strlit("}");
    let doc = ser_state(s);
    let items0 = s.items@;
    let blk = ser_block(items0);
    let n1 = crate::digits::dec_chars(s.interval_seconds as nat);
    let n2 = crate::digits::dec_chars(s.daily_count as nat);
    let sr = ser_string(s.last_reset_date@);
    let n3 = crate::digits::dec_chars(s.last_notification_time as nat);
    let bl = ser_bool(s.is_paused);
    let sh = ser_shown(crate::state::shown_view(s));
    let c1 = "{\"items\":["@;
    let c2 = c1 + blk;
    let c3 = c2 + ",\"intervalSeconds\":"@;
    let c4 = c3 + n1;
    let c5 = c4 + ",\"dailyCount\":"@;
    let c6 = c5 + n2;
    let c7 = c6 + ",\"lastResetDate\":"@;
    let c8 = c7 + sr;
    let c9 = c8 + ",\"lastNotificationTime\":"@;
    let c10 = c9 + n3;
    let c11 = c10 + ",\"isPaused\":"@;
    let c12 = c11 + bl;
    let c13 = c12 + ",\"lastShownItemId\":"@;
    let c14 = c13 + sh;
    assert(doc == c14 + "}"@);
    let l1 = c1.len() as int;
    let l2 = c2.len() as int;
    let l3 = c3.len() as int;
    let l4 = c4.len() as int;
    let l5 = c5.len() as int;
    let l6 = c6.len() as int;
    let l7 = c7.len() as int;
    let l8 = c8.len() as int;
    let l9 = c9.len() as int;
    let l10 = c10.len() as int;
    let l11 = c11.len() as int;
    let l12 = c12.len() as int;
    let l13 = c13.len() as int;
    let l14 = c14.len() as int;
    let ld = doc.len() as int;
    assert(l1 == 10);
    assert(ld == l14 + 1);
    assert(doc.subrange(0, l14) =~= c14);
    lemma_sub_at(doc, 0, doc.subrange(0, ld), 0, l14);
    assert(c14.subrange(0, l13) =~= c13);
    lemma_sub_at(doc, 0, c14, 0, l13);
    assert(c13.subrange(0, l12) =~= c12);
    lemma_sub_at(doc, 0, c13, 0, l12);
    assert(c12.subrange(0, l11) =~= c11);
    lemma_sub_at(doc, 0, c12, 0, l11);
    assert(c11.subrange(0, l10) =~= c10);
    lemma_sub_at(doc, 0, c11, 0, l10);
    assert(c10.subrange(0, l9) =~= c9);
    lemma_sub_at(doc, 0, c10, 0, l9);
    assert(c9.subrange(0, l8) =~= c8);
    lemma_sub_at(doc, 0, c9, 0, l8);
    assert(c8.subrange(0, l7) =~= c7);
    lemma_sub_at(doc, 0, c8, 0, l7);
    assert(c7.subrange(0, l6) =~= c6);
    lemma_sub_at(doc, 0, c7, 0, l6);
    assert(c6.subrange(0, l5) =~= c5);
    lemma_sub_at(doc, 0, c6, 0, l5);
    assert(c5.subrange(0, l4) =~= c4);
    lemma_sub_at(doc, 0, c5, 0, l4);
    assert(c4.subrange(0, l3) =~= c3);
    lemma_sub_at(doc, 0, c4, 0, l3);
    assert(c3.subrange(0, l2) =~= c2);
    lemma_sub_at(doc, 0, c3, 0, l2);
    assert(c2.subrange(0, l1) =~= c1);
    lemma_sub_at(doc, 0, c2, 0, l1);
    assert(c2.subrange(l1, l2) =~= blk);
    lemma_sub_at(doc, 0, c2, l1, l2);
    assert(c3.subrange(l2, l3) =~= ",\"intervalSeconds\":"@);
    lemma_sub_at(doc, 0, c3, l2, l3);
    assert(c4.subrange(l3, l4) =~= n1);
    lemma_sub_at(doc, 0, c4, l3, l4);
    assert(c5.subrange(l4, l5) =~= ",\"dailyCount\":"@);
    lemma_sub_at(doc, 0, c5, l4, l5);
    assert(c6.subrange(l5, l6) =~= n2);
    lemma_sub_at(doc, 0, c6, l5, l6);
    assert(c7.subrange(l6, l7) =~= ",\"lastResetDate\":"@);
    lemma_sub_at(doc, 0, c7, l6, l7);
    assert(c8.subrange(l7, l8) =~= sr);
    lemma_sub_at(doc, 0, c8, l7, l8);
    assert(c9.subrange(l8, l9) =~= ",\"lastNotificationTime\":"@);
    lemma_sub_at(doc, 0, c9, l8, l9);
    assert(c10.subrange(l9, l10) =~= n3);
    lemma_sub_at(doc, 0, c10, l9, l10);
    assert(c11.subrange(l10, l11) =~= ",\"isPaused\":"@);
    lemma_sub_at(doc, 0, c11, l10, l11);
    assert(c12.subrange(l11, l12) =~= bl);
    lemma_sub_at(doc, 0, c12, l11, l12);
    assert(c13.subrange(l12, l13) =~= ",\"lastShownItemId\":"@);
    lemma_sub_at(doc, 0, c13, l12, l13);
    assert(c14.subrange(l13, l14) =~= sh);
    lemma_sub_at(doc, 0, c14, l13, l14);
    assert(doc.subrange(l14, ld) =~= "}"@);
    assert(c1.subrange(1, 9) =~= "\"items\":"@);
    lemma_sub_at(doc, 0, c1, 1, 9);
    assert((",\"intervalSeconds\":"@).subrange(1, 19) =~= "\"intervalSeconds\":"@);
    lemma_sub_at(doc, l2, ",\"intervalSeconds\":"@, 1, 19);
    assert((",\"dailyCount\":"@).subrange(1, 14) =~= "\"dailyCount\":"@);
    lemma_sub_at(doc, l4, ",\"dailyCount\":"@, 1, 14);
    assert((",\"lastResetDate\":"@).subrange(1, 17) =~= "\"lastResetDate\":"@);
    lemma_sub_at(doc, l6, ",\"lastResetDate\":"@, 1, 17);
    assert((",\"lastNotificationTime\":"@).subrange(1, 24) =~= "\"lastNotificationTime\":"@);
    lemma_sub_at(doc, l8, ",\"lastNotificationTime\":"@, 1, 24);
    assert((",\"isPaused\":"@).subrange(1, 12) =~= "\"isPaused\":"@);
    lemma_sub_at(doc, l10, ",\"isPaused\":"@, 1, 12);
    assert((",\"lastShownItemId\":"@).subrange(1, 19) =~= "\"lastShownItemId\":"@);
    lemma_sub_at(doc, l12, ",\"lastShownItemId\":"@, 1, 19);
    lemma_char_at(doc, 0, c1, 0);
    lemma_char_at(doc, 0, c1, 1);
    lemma_char_at(doc, 0, c1, 9);
    lemma_char_at(doc, l2, ",\"intervalSeconds\":"@, 0);
    lemma_char_at(doc, l2, ",\"intervalSeconds\":"@, 1);
    lemma_char_at(doc, l4, ",\"dailyCount\":"@, 0);
    lemma_char_at(doc, l4, ",\"dailyCount\":"@, 1);
    lemma_char_at(doc, l6, ",\"lastResetDate\":"@, 0);
    lemma_char_at(doc, l6, ",\"lastResetDate\":"@, 1);
    lemma_char_at(doc, l8, ",\"lastNotificationTime\":"@, 0);
    lemma_char_at(doc, l8, ",\"lastNotificationTime\":"@, 1);
    lemma_char_at(doc, l10, ",\"isPaused\":"@, 0);
    lemma_char_at(doc, l10, ",\"isPaused\":"@, 1);
    lemma_char_at(doc, l12, ",\"lastShownItemId\":"@, 0);
    lemma_char_at(doc, l12, ",\"lastShownItemId\":"@, 1);
    lemma_char_at(doc, l14, "}"@, 0);
    lemma_char_at(doc, l1, blk, 0);
    assert(!is_ws(doc[l1])) by {
        if items0.len() == 0 {
            assert(blk[0] == ']');
        } else {
            reveal_strlit("{\"id\":");
            assert(ser_item(items0[0])[0] == '{');
            assert(blk[0] == '{');
        }
    }
}

/// After a member, a comma continues with the next member.
proof fn lemma_sep_step(v: Seq<char>, j: int, acc: RawFields)
    requires
        0 <= j < v.len(),
        skip_ws(v, j) == j,
        v[j] == ',',
    ensures
        p_member_sep(v, j, acc) == p_members(v, j + 1, acc),
{
}

/// After the last member, the closing brace ends the object.
proof fn lemma_sep_close(v: Seq<char>, j: int, acc: RawFields)
    requires
        0 <= j < v.len(),
        skip_ws(v, j) == j,
        v[j] == '}',
    ensures
        p_member_sep(v, j, acc) == Some((acc, j + 1)),
{
}

/// An items member at `i1` records the parsed pairs.
proof fn lemma_member_items(
    v: Seq<char>,
    i1: int,
    q: int,
    ps: Seq<(Seq<char>, Seq<char>)>,
    e: int,
    acc: RawFields,
)
    requires
        0 <= i1 < v.len(),
        skip_ws(v, i1) == i1,
        v[i1] != '}',
        starts_with(v, i1, "\"items\":"@),
        skip_ws(v, i1 + "\"items\":"@.len()) == q,
        q < v.len(),
        v[q] == '[',
        p_items(v, q + 1) == Some((ps, e)),
        i1 < e <= v.len(),
    ensures
        p_members(v, i1, acc) == p_member_sep(v, e, (RawFields { items: Some(ps), ..acc })),
{
}

/// An interval member at `i1` records the parsed number.
proof fn lemma_member_interval(v: Seq<char>, i1: int, n: u64, e: int, acc: RawFields)
    requires
        0 <= i1 < v.len(),
        skip_ws(v, i1) == i1,
        v[i1] != '}',
        !starts_with(v, i1, "\"items\":"@),
        starts_with(v, i1, "\"intervalSeconds\":"@),
        p_u64(v, skip_ws(v, i1 + "\"intervalSeconds\":"@.len())) == Some((n, e)),
        0 <= skip_ws(v, i1 + "\"intervalSeconds\":"@.len()) <= v.len(),
        i1 < e <= v.len(),
    ensures
        p_members(v, i1, acc) == p_member_sep(v, e, (RawFields { interval: Some(n), ..acc })),
{
}

/// A daily-count member at `i1` records the parsed number.
proof fn lemma_member_daily(v: Seq<char>, i1: int, n: u64, e: int, acc: RawFields)
    requires
        0 <= i1 < v.len(),
        skip_ws(v, i1) == i1,
        v[i1] != '}',
        !starts_with(v, i1, "\"items\":"@),
        !starts_with(v, i1, "\"intervalSeconds\":"@),
        starts_with(v, i1, "\"dailyCount\":"@),
        p_u64(v, skip_ws(v, i1 + "\"dailyCount\":"@.len())) == Some((n, e)),
        0 <= skip_ws(v, i1 + "\"dailyCount\":"@.len()) <= v.len(),
        i1 < e <= v.len(),
    ensures
        p_members(v, i1, acc) == p_member_sep(v, e, (RawFields { daily: Some(n), ..acc })),
{
}

/// A reset-date member at `i1` records the parsed string.
proof fn lemma_member_reset(v: Seq<char>, i1: int, q: int, x: Seq<char>, e: int, acc: RawFields)
    requires
        0 <= i1 < v.len(),
        skip_ws(v, i1) == i1,
        v[i1] != '}',
        !starts_with(v, i1, "\"items\":"@),
        !starts_with(v, i1, "\"intervalSeconds\":"@),
        !starts_with(v, i1, "\"dailyCount\":"@),
        starts_with(v, i1, "\"lastResetDate\":"@),
        skip_ws(v, i1 + "\"lastResetDate\":"@.len()) == q,
        q < v.len(),
        v[q] == '"',
        p_str(v, q + 1, Seq::empty()) == Some((x, e)),
        i1 < e <= v.len(),
    ensures
        p_members(v, i1, acc) == p_member_sep(v, e, (RawFields { reset: Some(x), ..acc })),
{
}

/// A last-notification-time member at `i1` records the parsed number.
proof fn lemma_member_last_time(v: Seq<char>, i1: int, n: u64, e: int, acc: RawFields)
    requires
        0 <= i1 < v.len(),
        skip_ws(v, i1) == i1,
        v[i1] != '}',
        !starts_with(v, i1, "\"items\":"@),
        !starts_with(v, i1, "\"intervalSeconds\":"@),
        !starts_with(v, i1, "\"dailyCount\":"@),
        !starts_with(v, i1, "\"lastResetDate\":"@),
        starts_with(v, i1, "\"lastNotificationTime\":"@),
        p_u64(v, skip_ws(v, i1 + "\"lastNotificationTime\":"@.len())) == Some((n, e)),
        0 <= skip_ws(v, i1 + "\"lastNotificationTime\":"@.len()) <= v.len(),
        i1 < e <= v.len(),
    ensures
        p_members(v, i1, acc) == p_member_sep(v, e, (RawFields { last_time: Some(n), ..acc })),
{
}

/// A pause member at `i1` records the parsed boolean.
proof fn lemma_member_paused(v: Seq<char>, i1: int, b: bool, e: int, acc: RawFields)
    requires
        0 <= i1 < v.len(),
        skip_ws(v, i1) == i1,
        v[i1] != '}',
        !starts_with(v, i1, "\"items\":"@),
        !starts_with(v, i1, "\"intervalSeconds\":"@),
        !starts_with(v, i1, "\"dailyCount\":"@),
        !starts_with(v, i1, "\"lastResetDate\":"@),
        !starts_with(v, i1, "\"lastNotificationTime\":"@),
        starts_with(v, i1, "\"isPaused\":"@),
        p_bool(v, skip_ws(v, i1 + "\"isPaused\":"@.len())) == Some((b, e)),
        i1 < e <= v.len(),
    ensures
        p_members(v, i1, acc) == p_member_sep(v, e, (RawFields { paused: Some(b), ..acc })),
{
}

/// A last-shown member at `i1` records the parsed id or its absence.
proof fn lemma_member_shown(
    v: Seq<char>,
    i1: int,
    q: int,
    x: Option<Seq<char>>,
    e: int,
    acc: RawFields,
)
    requires
        0 <= i1 < v.len(),
        skip_ws(v, i1) == i1,
        v[i1] != '}',
        !starts_with(v, i1, "\"items\":"@),
        !starts_with(v, i1, "\"intervalSeconds\":"@),
        !starts_with(v, i1, "\"dailyCount\":"@),
        !starts_with(v, i1, "\"lastResetDate\":"@),
        !starts_with(v, i1, "\"lastNotificationTime\":"@),
        !starts_with(v, i1, "\"isPaused\":"@),
        starts_with(v, i1, "\"lastShownItemId\":"@),
        skip_ws(v, i1 + "\"lastShownItemId\":"@.len()) == q,
        0 <= q <= v.len(),
        (match x {
            None => starts_with(v, q, "null"@) && e == q + "null"@.len(),
            Some(y) => !starts_with(v, q, "null"@) && q < v.len() && v[q] == '"' && p_str(
                v,
                q + 1,
                Seq::empty(),
            ) == Some((y, e)),
        }),
        i1 < e <= v.len(),
    ensures
        p_members(v, i1, acc) == p_member_sep(v, e, (RawFields { shown: Some(x), ..acc })),
{
}

/// The members of a document laid out canonically parse in order to the
/// full record.  The layout is given by the premises, so this holds of any
/// text carrying the pieces at these positions.
#[verifier::rlimit(100)]
#[verifier::spinoff_prover]
proof fn lemma_doc_walk(
    v: Seq<char>,
    items: Seq<ReminderItem>,
    iv: u64,
    dc: u64,
    rd: Seq<char>,
    lt: u64,
    ip: bool,
    sv: Option<Seq<char>>,
)
    requires
        ({
            let blk = ser_block(items);
            let n1 = crate::digits::dec_chars(iv as nat);
            let n2 = crate::digits::dec_chars(dc as nat);
            let sr = ser_string(rd);
            let n3 = crate::digits::dec_chars(lt as nat);
            let bl = ser_bool(ip);
            let sh = ser_shown(sv);
            let l1 = 10int;
            let l2 = l1 + blk.len();
            let l3 = l2 + 19;
            let l4 = l3 + n1.len();
            let l5 = l4 + 14;
            let l6 = l5 + n2.len();
            let l7 = l6 + 17;
            let l8 = l7 + sr.len();
            let l9 = l8 + 24;
            let l10 = l9 + n3.len();
            let l11 = l10 + 12;
            let l12 = l11 + bl.len();
            let l13 = l12 + 19;
            let l14 = l13 + sh.len();
            &&& v.len() == l14 + 1
            &&& v.subrange(l1, l2) == blk
            &&& v.subrange(l3, l4) == n1
            &&& v.subrange(l5, l6) == n2
            &&& v.subrange(l7, l8) == sr
            &&& v.subrange(l9, l10) == n3
            &&& v.subrange(l11, l12) == bl
            &&& v.subrange(l13, l14) == sh
            &&& starts_with(v, 1, "\"items\":"@)
            &&& starts_with(v, l2 + 1, "\"intervalSeconds\":"@)
            &&& starts_with(v, l4 + 1, "\"dailyCount\":"@)
            &&& starts_with(v, l6 + 1, "\"lastResetDate\":"@)
            &&& starts_with(v, l8 + 1, "\"lastNotificationTime\":"@)
            &&& starts_with(v, l10 + 1, "\"isPaused\":"@)
            &&& starts_with(v, l12 + 1, "\"lastShownItemId\":"@)
            &&& v[0] == '{' && v[1] == '"' && v[9] == '['
            &&& v[l2] == ',' && v[l2 + 1] == '"'
            &&& v[l4] == ',' && v[l4 + 1] == '"'
            &&& v[l6] == ',' && v[l6 + 1] == '"'
            &&& v[l8] == ',' && v[l8 + 1] == '"'
            &&& v[l10] == ',' && v[l10 + 1] == '"'
            &&& v[l12] == ',' && v[l12 + 1] == '"'
            &&& v[l14] == '}'
            &&& !is_ws(v[l1])
        }),
    ensures
        p_members(v, 1, no_fields()) == Some(
            (
                (RawFields {
                    items: Some(crate::state::item_pairs(items)),
                    interval: Some(iv),
                    daily: Some(dc),
                    reset: Some(rd),
                    last_time: Some(lt),
                    paused: Some(ip),
                    shown: Some(sv),
                }),
                v.len() as int,
            ),
        ),
{
    reveal_strlit("\"items\":");
    reveal_strlit("\"intervalSeconds\":");
    reveal_strlit("\"dailyCount\":");
    reveal_strlit("\"lastResetDate\":");
    reveal_strlit("\"lastNotificationTime\":");
    reveal_strlit("\"isPaused\":");
    reveal_strlit("\"lastShownItemId\":");
    reveal_strlit("true");
    reveal_strlit("false");
    reveal_strlit("null");
    let blk = ser_block(items);
    let n1 = crate::digits::dec_chars(iv as nat);
    let n2 = crate::digits::dec_chars(dc as nat);
    let sr = ser_string(rd);
    let n3 = crate::digits::dec_chars(lt as nat);
    let bl = ser_bool(ip);
    let sh = ser_shown(sv);
    let l1 = 10int;
    let l2 = l1 + blk.len() as int;
    let l3 = l2 + 19;
    let l4 = l3 + n1.len() as int;
    let l5 = l4 + 14;
    let l6 = l5 + n2.len() as int;
    let l7 = l6 + 17;
    let l8 = l7 + sr.len() as int;
    let l9 = l8 + 24;
    let l10 = l9 + n3.len() as int;
    let l11 = l10 + 12;
    let l12 = l11 + bl.len() as int;
    let l13 = l12 + 19;
    let l14 = l13 + sh.len() as int;
    let ld = v.len() as int;
    let t1 = "\"items\":"@;
    let t2 = "\"intervalSeconds\":"@;
    let t3 = "\"dailyCount\":"@;
    let t4 = "\"lastResetDate\":"@;
    let t5 = "\"lastNotificationTime\":"@;
    let t6 = "\"isPaused\":"@;
    let t7 = "\"lastShownItemId\":"@;
    crate::digits::lemma_dec_chars_digits(iv as nat);
    crate::digits::lemma_dec_chars_digits(dc as nat);
    crate::digits::lemma_dec_chars_digits(lt as nat);
    assert(' ' as u32 == 32 && '\n' as u32 == 10 && '\r' as u32 == 13 && '\t' as u32 == 9);
    assert(',' as u32 == 44 && '}' as u32 == 125);
    lemma_char_at(v, l3, n1, 0);
    lemma_char_at(v, l5, n2, 0);
    lemma_char_at(v, l9, n3, 0);
    assert(crate::digits::is_digit(v[l3]) && crate::digits::is_digit(v[l5])
        && crate::digits::is_digit(v[l9]));
    assert(!is_ws(v[l3]) && !is_ws(v[l5]) && !is_ws(v[l9]));
    lemma_char_at(v, l7, sr, 0);
    assert(v[l7] == '"');
    lemma_char_at(v, l11, bl, 0);
    lemma_char_at(v, l13, sh, 0);
    // member 1: items
    assert(skip_ws(v, 1) == 1);
    lemma_p_items_canonical(v, l1, items);
    assert(skip_ws(v, 1 + t1.len() as int) == 9) by {
        assert('[' as u32 == 91);
    }
    let f1 = RawFields { items: Some(crate::state::item_pairs(items)), ..no_fields() };
    lemma_member_items(v, 1, 9, crate::state::item_pairs(items), l2, no_fields());
    assert(skip_ws(v, l2) == l2);
    lemma_sep_step(v, l2, f1);
    // member 2: intervalSeconds
    assert(skip_ws(v, l2 + 1) == l2 + 1);
    lemma_not_tok(v, l2 + 1, t2, t1, 2);
    assert(skip_ws(v, l2 + 1 + t2.len() as int) == l3);
    lemma_p_u64_canonical(v, l3, iv);
    let f2 = RawFields { interval: Some(iv), ..f1 };
    lemma_member_interval(v, l2 + 1, iv, l4, f1);
    assert(skip_ws(v, l4) == l4);
    lemma_sep_step(v, l4, f2);
    // member 3: dailyCount
    assert(skip_ws(v, l4 + 1) == l4 + 1);
    lemma_not_tok(v, l4 + 1, t3, t1, 1);
    lemma_not_tok(v, l4 + 1, t3, t2, 1);
    assert(skip_ws(v, l4 + 1 + t3.len() as int) == l5);
    lemma_p_u64_canonical(v, l5, dc);
    let f3 = RawFields { daily: Some(dc), ..f2 };
    lemma_member_daily(v, l4 + 1, dc, l6, f2);
    assert(skip_ws(v, l6) == l6);
    lemma_sep_step(v, l6, f3);
    // member 4: lastResetDate
    assert(skip_ws(v, l6 + 1) == l6 + 1);
    lemma_not_tok(v, l6 + 1, t4, t1, 1);
    lemma_not_tok(v, l6 + 1, t4, t2, 1);
    lemma_not_tok(v, l6 + 1, t4, t3, 1);
    assert(skip_ws(v, l6 + 1 + t4.len() as int) == l7);
    assert(sr.subrange(1, sr.len() as int) =~= esc(rd) + seq!['"']);
    lemma_sub_at(v, l7, sr, 1, sr.len() as int);
    lemma_p_str_canonical(v, l7 + 1, rd, Seq::empty());
    assert(Seq::<char>::empty() + rd =~= rd);
    let f4 = RawFields { reset: Some(rd), ..f3 };
    lemma_member_reset(v, l6 + 1, l7, rd, l8, f3);
    assert(skip_ws(v, l8) == l8);
    lemma_sep_step(v, l8, f4);
    // member 5: lastNotificationTime
    assert(skip_ws(v, l8 + 1) == l8 + 1);
    lemma_not_tok(v, l8 + 1, t5, t1, 1);
    lemma_not_tok(v, l8 + 1, t5, t2, 1);
    lemma_not_tok(v, l8 + 1, t5, t3, 1);
    lemma_not_tok(v, l8 + 1, t5, t4, 5);
    assert(skip_ws(v, l8 + 1 + t5.len() as int) == l9);
    lemma_p_u64_canonical(v, l9, lt);
    let f5 = RawFields { last_time: Some(lt), ..f4 };
    lemma_member_last_time(v, l8 + 1, lt, l10, f4);
    assert(skip_ws(v, l10) == l10);
    lemma_sep_step(v, l10, f5);
    // member 6: isPaused
    assert(skip_ws(v, l10 + 1) == l10 + 1);
    lemma_not_tok(v, l10 + 1, t6, t1, 2);
    lemma_not_tok(v, l10 + 1, t6, t2, 2);
    lemma_not_tok(v, l10 + 1, t6, t3, 1);
    lemma_not_tok(v, l10 + 1, t6, t4, 1);
    lemma_not_tok(v, l10 + 1, t6, t5, 1);
    assert(!is_ws(v[l11])) by {
        if ip {
            assert(bl[0] == 't');
        } else {
            assert(bl[0] == 'f');
        }
    }
    assert(skip_ws(v, l10 + 1 + t6.len() as int) == l11);
    assert(p_bool(v, l11) == Some((ip, l12))) by {
        if ip {
            assert(starts_with(v, l11, "true"@));
        } else {
            assert(starts_with(v, l11, "false"@));
            lemma_not_tok(v, l11, "false"@, "true"@, 0);
        }
    }
    let f6 = RawFields { paused: Some(ip), ..f5 };
    lemma_member_paused(v, l10 + 1, ip, l12, f5);
    assert(skip_ws(v, l12) == l12);
    lemma_sep_step(v, l12, f6);
    // member 7: lastShownItemId
    assert(skip_ws(v, l12 + 1) == l12 + 1);
    lemma_not_tok(v, l12 + 1, t7, t1, 1);
    lemma_not_tok(v, l12 + 1, t7, t2, 1);
    lemma_not_tok(v, l12 + 1, t7, t3, 1);
    lemma_not_tok(v, l12 + 1, t7, t4, 5);
    lemma_not_tok(v, l12 + 1, t7, t5, 5);
    lemma_not_tok(v, l12 + 1, t7, t6, 1);
    assert(!is_ws(v[l13])) by {
        match sv {
            None => {
                assert(sh[0] == 'n');
            },
            Some(x) => {
                assert(sh[0] == '"');
            },
        }
    }
    assert(skip_ws(v, l12 + 1 + t7.len() as int) == l13);
    let f7 = RawFields { shown: Some(sv), ..f6 };
    match sv {
        None => {
            assert(sh == "null"@);
            assert(starts_with(v, l13, "null"@));
            assert(l13 + 4 == l14);
        },
        Some(x) => {
            assert(sh == ser_string(x));
            assert(starts_with(v, l13, sh));
            lemma_not_tok(v, l13, sh, "null"@, 0);
            assert(v[l13] == '"');
            assert(sh.subrange(1, sh.len() as int) =~= esc(x) + seq!['"']);
            lemma_sub_at(v, l13, sh, 1, sh.len() as int);
            lemma_p_str_canonical(v, l13 + 1, x, Seq::empty());
            assert(Seq::<char>::empty() + x =~= x);
        },
    }
    lemma_member_shown(v, l12 + 1, l13, sv, l14, f6);
    assert(skip_ws(v, l14) == l14);
    lemma_sep_close(v, l14, f7);
}

/// Round trip: loading the canonical document of a well-formed state gives
/// back an equal state, whatever date the load runs under.
#[verifier::rlimit(100)]
#[verifier::spinoff_prover]
pub proof fn lemma_load_inverts_ser(s: SchedulerState, today: Seq<char>)
    requires
        wf(s),
    ensures
        spec_load(ser_state(s), today) == state_view(s),
{
    lemma_ser_state_layout(s);
    let doc = ser_state(s);
    let items0 = s.items@;
    let ld = doc.len() as int;
    lemma_doc_walk(
        doc,
        items0,
        s.interval_seconds,
        s.daily_count,
        s.last_reset_date@,
        s.last_notification_time,
        s.is_paused,
        crate::state::shown_view(s),
    );
    let f7 = RawFields {
        items: Some(crate::state::item_pairs(items0)),
        interval: Some(s.interval_seconds),
        daily: Some(s.daily_count),
        reset: Some(s.last_reset_date@),
        last_time: Some(s.last_notification_time),
        paused: Some(s.is_paused),
        shown: Some(crate::state::shown_view(s)),
    };
    assert(p_members(doc, 1, no_fields()) == Some((f7, ld)));
    assert(skip_ws(doc, 0) == 0);
    assert(skip_ws(doc, ld) == ld);
    assert forall|a: int, b: int|
        0 <= a < crate::state::item_pairs(items0).len() && 0 <= b < crate::state::item_pairs(
            items0,
        ).len() && a != b implies (#[trigger] crate::state::item_pairs(items0)[a]).0 != (
    #[trigger] crate::state::item_pairs(items0)[b]).0 by {
        assert(crate::state::item_pairs(items0)[a].0 == items0[a].id@);
        assert(crate::state::item_pairs(items0)[b].0 == items0[b].id@);
    }
    assert(pairs_unique(crate::state::item_pairs(items0)));
    assert(assemble(f7, today) == state_view(s));
}

} // verus!


