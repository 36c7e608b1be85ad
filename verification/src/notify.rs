//! Reading the notification monitor's output. The app runs `dbus-monitor`
//! filtered to the notification service's `Notify` calls and feeds its
//! output here line by line; a line announcing such a call arms the reader,
//! and the next argument line reports the posting application's name (or an
//! empty name when the line has an unexpected shape).

use vstd::prelude::*;
use vstd::string::StrSliceExecFns;
use vstd::string::StringExecFns;

verus! {

/// `char::is_whitespace`: the characters with the Unicode White_Space
/// property.
pub open spec fn is_white(c: char) -> bool {
    ('\u{9}' <= c <= '\u{d}') || c == ' ' || c == '\u{85}' || c == '\u{a0}' || c == '\u{1680}'
        || ('\u{2000}' <= c <= '\u{200a}') || c == '\u{2028}' || c == '\u{2029}' || c == '\u{202f}'
        || c == '\u{205f}' || c == '\u{3000}'
}

pub open spec fn trim_start(s: Seq<char>) -> Seq<char>
    decreases s.len(),
{
    if s.len() > 0 && is_white(s[0]) {
        trim_start(s.drop_first())
    } else {
        s
    }
}

pub open spec fn trim_end(s: Seq<char>) -> Seq<char>
    decreases s.len(),
{
    if s.len() > 0 && is_white(s.last()) {
        trim_end(s.drop_last())
    } else {
        s
    }
}

/// `str::trim`.
pub open spec fn trimmed(s: Seq<char>) -> Seq<char> {
    trim_end(trim_start(s))
}

/// `trim_end_matches('"')`.
pub open spec fn trim_quotes(s: Seq<char>) -> Seq<char>
    decreases s.len(),
{
    if s.len() > 0 && s.last() == '"' {
        trim_quotes(s.drop_last())
    } else {
        s
    }
}

pub open spec fn starts_with(s: Seq<char>, pat: Seq<char>) -> bool {
    pat.len() <= s.len() && s.take(pat.len() as int) == pat
}

pub open spec fn has_infix(s: Seq<char>, pat: Seq<char>) -> bool {
    exists|i: int| 0 <= i && i + pat.len() <= s.len() && #[trigger] s.subrange(i, i + pat.len()) == pat
}

/// The reader's response to one line: whether it is armed afterwards, and
/// the application name it reports, if any.
pub open spec fn step(
    armed: bool,
    line: Seq<char>,
    call: Seq<char>,
    method: Seq<char>,
    string_quote: Seq<char>,
    string_word: Seq<char>,
) -> (bool, Option<Seq<char>>) {
    if has_infix(line, call) && has_infix(line, method) {
        (true, None)
    } else if armed {
        let t = trimmed(line);
        if starts_with(t, string_quote) {
            (false, Some(trim_quotes(t.skip(string_quote.len() as int))))
        } else if !starts_with(t, string_word) {
            (false, Some(Seq::empty()))
        } else {
            (true, None)
        }
    } else {
        (false, None)
    }
}

/// The reader's response with the monitor's fixed words.
pub open spec fn read_step(armed: bool, line: Seq<char>) -> (bool, Option<Seq<char>>) {
    step(armed, line, "member=Notify"@, "method call"@, "string \""@, "string"@)
}

/// A call line always arms the reader and reports nothing; a report comes
/// only from an armed reader and disarms it, so each call is reported at
/// most once; an unarmed reader ignores everything but call lines.
pub proof fn lemma_report_once(armed: bool, line: Seq<char>)
    ensures
        has_infix(line, "member=Notify"@) && has_infix(line, "method call"@) ==> read_step(
            armed,
            line,
        ) == (true, Option::<Seq<char>>::None),
        read_step(armed, line).1 is Some ==> armed && !read_step(armed, line).0,
        !armed && !(has_infix(line, "member=Notify"@) && has_infix(line, "method call"@))
            ==> read_step(armed, line) == (false, Option::<Seq<char>>::None),
{
}

/// After a call, an argument line whose trimmed text does not begin with
/// "string" still reports the event, with an empty name, and disarms the
/// reader; a line that begins with "string" but not with a quoted string
/// leaves it armed and reports nothing yet.
pub proof fn lemma_unexpected_shape(line: Seq<char>)
    requires
        !(has_infix(line, "member=Notify"@) && has_infix(line, "method call"@)),
    ensures
        !starts_with(trimmed(line), "string"@) ==> read_step(true, line) == (false, Some(Seq::<char>::empty())),
        starts_with(trimmed(line), "string"@) && !starts_with(trimmed(line), "string \""@) ==> read_step(true, line)
            == (true, Option::<Seq<char>>::None),
{
    reveal_strlit("string");
    reveal_strlit("string \"");
    let t = trimmed(line);
    if starts_with(t, "string \""@) {
        assert(t.take(6) =~= t.take(8).take(6));
        assert("string \""@.take(6) =~= "string"@);
    }
}

proof fn lemma_trim_start_prefix(ws: Seq<char>, rest: Seq<char>)
    requires
        forall|i: int| 0 <= i < ws.len() ==> is_white(#[trigger] ws[i]),
        rest.len() > 0,
        !is_white(rest[0]),
    ensures
        trim_start(ws + rest) == rest,
    decreases ws.len(),
{
    if ws.len() == 0 {
        assert(ws + rest =~= rest);
    } else {
        assert((ws + rest)[0] == ws[0]);
        assert((ws + rest).drop_first() =~= ws.drop_first() + rest);
        assert forall|i: int| 0 <= i < ws.drop_first().len() implies is_white(#[trigger] ws.drop_first()[i]) by {
            assert(ws.drop_first()[i] == ws[i + 1]);
        }
        lemma_trim_start_prefix(ws.drop_first(), rest);
    }
}

proof fn lemma_trim_quotes_one(name: Seq<char>)
    requires
        name.len() == 0 || name.last() != '"',
    ensures
        trim_quotes(name.push('"')) == name,
{
    assert(name.push('"').drop_last() =~= name);
    assert(name.push('"').last() == '"');
    assert(trim_quotes(name) == name);
    assert(trim_quotes(name.push('"')) == trim_quotes(name.push('"').drop_last()));
}

/// The argument line after a call, indented by any whitespace, reports the
/// quoted application name, without its closing quote.
pub proof fn lemma_reads_app_name(ws: Seq<char>, name: Seq<char>)
    requires
        forall|i: int| 0 <= i < ws.len() ==> is_white(#[trigger] ws[i]),
        name.len() == 0 || name.last() != '"',
    ensures
        ({
            let line = ws + "string \""@ + name + "\""@;
            !((exists|i: int| 0 <= i && i + 13 <= line.len() && #[trigger] line.subrange(i, i + 13) == "member=Notify"@)
                && (exists|i: int| 0 <= i && i + 11 <= line.len() && #[trigger] line.subrange(i, i + 11) == "method call"@))
                ==> read_step(true, line) == (false, Some(name))
        }),
{
    reveal_strlit("string \"");
    reveal_strlit("\"");
    reveal_strlit("string");
    reveal_strlit("member=Notify");
    reveal_strlit("method call");
    let pre = "string \""@;
    let rest = pre + name + "\""@;
    let line = ws + pre + name + "\""@;
    assert(line =~= ws + rest);
    assert(rest[0] == 's');
    lemma_trim_start_prefix(ws, rest);
    assert(rest.last() == '"');
    assert(rest.drop_last() =~= pre + name);
    assert(trim_end(rest) == rest);
    assert(trimmed(line) == rest);
    assert(rest.take(8) =~= pre);
    assert(rest.skip(8) =~= name.push('"'));
    lemma_trim_quotes_one(name);
    if has_infix(line, "member=Notify"@) {
        let i = choose|i: int| 0 <= i && i + "member=Notify"@.len() <= line.len() && #[trigger] line.subrange(i, i + "member=Notify"@.len()) == "member=Notify"@;
        assert(line.subrange(i, i + 13) == "member=Notify"@);
    }
    if has_infix(line, "method call"@) {
        let i = choose|i: int| 0 <= i && i + "method call"@.len() <= line.len() && #[trigger] line.subrange(i, i + "method call"@.len()) == "method call"@;
        assert(line.subrange(i, i + 11) == "method call"@);
    }
}

fn white(c: char) -> (b: bool)
    ensures
        b == is_white(c),
{
    ('\u{9}' <= c && c <= '\u{d}') || c == ' ' || c == '\u{85}' || c == '\u{a0}' || c == '\u{1680}'
        || ('\u{2000}' <= c && c <= '\u{200a}') || c == '\u{2028}' || c == '\u{2029}' || c
        == '\u{202f}' || c == '\u{205f}' || c == '\u{3000}'
}

/// Does `pat` occur in `s` starting at character `i`?
fn matches_at(s: &str, n: usize, i: usize, pat: &str, m: usize) -> (b: bool)
    requires
        n == s@.len(),
        m == pat@.len(),
        i + m <= n,
    ensures
        b == (s@.subrange(i as int, i + m) == pat@),
{
    let mut k: usize = 0;
    while k < m
        invariant
            k <= m,
            i + m <= n,
            n == s@.len(),
            m == pat@.len(),
            forall|q: int| 0 <= q < k ==> s@[i + q] == pat@[q],
        decreases m - k,
    {
        if s.get_char(i + k) != pat.get_char(k) {
            assert(s@.subrange(i as int, i + m)[k as int] != pat@[k as int]);
            return false;
        }
        k += 1;
    }
    assert(s@.subrange(i as int, i + m) =~= pat@);
    true
}

/// `str::contains` for a text pattern.
fn contains(s: &str, pat: &str) -> (b: bool)
    ensures
        b == has_infix(s@, pat@),
{
    let n = s.unicode_len();
    let m = pat.unicode_len();
    if m > n {
        return false;
    }
    if m == 0 {
        assert(s@.subrange(0, 0 + pat@.len() as int) =~= pat@);
        return true;
    }
    let mut i: usize = 0;
    while i <= n - m
        invariant
            n == s@.len(),
            m == pat@.len(),
            0 < m <= n,
            i <= n - m + 1,
            forall|j: int| 0 <= j < i ==> #[trigger] s@.subrange(j, j + m) != pat@,
        decreases n - m + 1 - i,
    {
        if matches_at(s, n, i, pat, m) {
            return true;
        }
        i += 1;
    }
    false
}

/// The trimmed part of a line: character positions `[a, b)`.
fn trim_bounds(s: &str, n: usize) -> (r: (usize, usize))
    requires
        n == s@.len(),
    ensures
        r.0 <= r.1 <= n,
        s@.subrange(r.0 as int, r.1 as int) == trimmed(s@),
{
    let mut a: usize = 0;
    assert(s@.skip(0) =~= s@);
    while a < n && white(s.get_char(a))
        invariant
            a <= n,
            n == s@.len(),
            trim_start(s@) == trim_start(s@.skip(a as int)),
        decreases n - a,
    {
        proof {
            assert(s@.skip(a as int).drop_first() =~= s@.skip(a + 1));
        }
        a += 1;
    }
    proof {
        if a == n {
            assert(s@.skip(a as int) =~= Seq::<char>::empty());
        }
        assert(trim_start(s@) == s@.skip(a as int));
        assert(s@.skip(a as int) =~= s@.subrange(a as int, n as int));
    }
    let mut b: usize = n;
    while b > a && white(s.get_char(b - 1))
        invariant
            a <= b <= n,
            n == s@.len(),
            trim_end(s@.subrange(a as int, n as int)) == trim_end(s@.subrange(a as int, b as int)),
        decreases b - a,
    {
        proof {
            assert(s@.subrange(a as int, b as int).drop_last() =~= s@.subrange(a as int, b - 1));
        }
        b -= 1;
    }
    (a, b)
}

/// Feed one line of monitor output to a reader that is `armed` (or not).
/// Returns whether it is armed afterwards and the application name of a
/// freshly posted notification, if this line reports one.
pub fn read_line(armed: bool, line: &str) -> (r: (bool, Option<String>))
    ensures
        r.0 == read_step(armed, line@).0,
        r.1 matches Some(app) ==> read_step(armed, line@).1 == Some(app@),
        r.1 is None ==> read_step(armed, line@).1 is None,
{
    let call = "member=Notify";
    let method = "method call";
    let string_quote = "string \"";
    let string_word = "string";
    if contains(line, call) && contains(line, method) {
        return (true, None);
    }
    if !armed {
        return (false, None);
    }
    let n = line.unicode_len();
    let (a, b) = trim_bounds(line, n);
    let ghost t = line@.subrange(a as int, b as int);
    let q = string_quote.unicode_len();
    if b - a >= q && matches_at(line, n, a, string_quote, q) {
        proof {
            assert(t.take(q as int) =~= line@.subrange(a as int, a + q));
        }
        let mut e: usize = b;
        while e > a + q && line.get_char(e - 1) == '"'
            invariant
                a + q <= e <= b <= n,
                n == line@.len(),
                trim_quotes(line@.subrange(a + q, b as int)) == trim_quotes(
                    line@.subrange(a + q, e as int),
                ),
            decreases e,
        {
            proof {
                assert(line@.subrange(a + q, e as int).drop_last() =~= line@.subrange(
                    a + q,
                    e - 1,
                ));
            }
            e -= 1;
        }
        proof {
            assert(t.skip(q as int) =~= line@.subrange(a + q, b as int));
        }
        let app = String::from_str(line.substring_char(a + q, e));
        return (false, Some(app));
    }
    proof {
        if q <= b - a {
            assert(t.take(q as int) =~= line@.subrange(a as int, a + q));
        }
    }
    let w = string_word.unicode_len();
    if b - a >= w && matches_at(line, n, a, string_word, w) {
        proof {
            assert(t.take(w as int) =~= line@.subrange(a as int, a + w));
        }
        (true, None)
    } else {
        proof {
            if w <= b - a {
                assert(t.take(w as int) =~= line@.subrange(a as int, a + w));
            }
        }
        (false, Some(String::new()))
    }
}

/// The excited line for a fresh notification from `app`: its first 18
/// characters, or a puzzled line when the name is unknown.
pub open spec fn spec_excited_label(app: Seq<char>) -> Seq<char> {
    if app.len() == 0 {
        "Ooh! What's that?"@
    } else {
        "Ooh! "@ + app.take(if app.len() < 18 {
            app.len() as int
        } else {
            18
        }) + "!"@
    }
}

/// The excited line reads "Ooh! ", then the application's name cut to its
/// first 18 characters, then "!"; without a name it is "Ooh! What's that?".
pub proof fn lemma_excited_label(app: Seq<char>)
    ensures
        app.len() == 0 ==> spec_excited_label(app) == "Ooh! What's that?"@,
        app.len() > 0 ==> ({
            let n: int = if app.len() < 18 { app.len() as int } else { 18 };
            let l = spec_excited_label(app);
            &&& l.len() == n + 6
            &&& l.take(5) == seq!['O', 'o', 'h', '!', ' ']
            &&& l[n + 5] == '!'
            &&& forall|i: int| 0 <= i < n ==> #[trigger] l[i + 5] == app[i]
        }),
{
    reveal_strlit("Ooh! ");
    reveal_strlit("!");
    if app.len() > 0 {
        let n: int = if app.len() < 18 { app.len() as int } else { 18 };
        let l = spec_excited_label(app);
        assert(l.take(5) =~= seq!['O', 'o', 'h', '!', ' ']);
    }
}

pub fn excited_label(app: &str) -> (label: String)
    ensures
        label@ == spec_excited_label(app@),
{
    let n = app.unicode_len();
    if n == 0 {
        return String::from_str("Ooh! What's that?");
    }
    let cut = if n < 18 {
        n
    } else {
        18
    };
    let mut label = String::from_str("Ooh! ");
    label.append(app.substring_char(0, cut));
    label.append("!");
    proof {
        assert(app@.subrange(0, cut as int) =~= app@.take(cut as int));
    }
    label
}

} // verus!
