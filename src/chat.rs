//! Text rules of the chat pipeline: the character allow-list, the profanity
//! censor, the screaming detector, name validation and command parsing.
use rustrict::CensorStr;
use vstd::prelude::*;
use crate::auth::{AuthInfo, Permission};
use vstd::string::{StrSliceExecFns, StringExecFns};
use vstd::utf8::encode_utf8;

verus! {

/// Whether `c` may appear in a chat message: ASCII letters and digits, space,
/// newline, common punctuation and a small set of emoji.
pub open spec fn allowed_char(c: char) -> bool {
    ||| 'a' <= c <= 'z'
    ||| 'A' <= c <= 'Z'
    ||| '0' <= c <= '9'
    ||| c == ' ' || c == '\n' || c == '?' || c == '!' || c == '@' || c == '#' || c == '$'
    ||| c == '%' || c == '^' || c == '&' || c == '*' || c == '(' || c == ')' || c == '{'
    ||| c == '}' || c == '[' || c == ']' || c == ';' || c == ':' || c == '\'' || c == '"'
    ||| c == '\\' || c == '|' || c == '/' || c == ',' || c == '.' || c == '<' || c == '>'
    ||| c == '-' || c == '_' || c == '=' || c == '+' || c == '`'
    ||| c == '\u{1F602}' || c == '\u{1F923}' || c == '\u{1F914}' || c == '\u{1F928}'
    ||| c == '\u{1F644}' || c == '\u{1F62D}' || c == '\u{1F60E}' || c == '\u{1F976}'
    ||| c == '\u{1F624}' || c == '\u{1F44D}' || c == '\u{1F44E}' || c == '\u{1F480}'
    ||| c == '\u{1F5FF}' || c == '\u{1F525}' || c == '\u{1F384}' || c == '\u{1F383}'
    ||| c == '\u{1F53A}' || c == '\u{1F53B}' || c == '\u{1F921}' || c == '\u{1F3AA}'
    ||| c == '\u{1F3B6}' || c == '\u{1F3B5}'
}

/// The characters of `s` that are on the allow-list, in order.
pub open spec fn sanitized(s: Seq<char>) -> Seq<char>
    decreases s.len(),
{
    if s.len() == 0 {
        s
    } else {
        let rest = sanitized(s.drop_last());
        if allowed_char(s.last()) {
            rest.push(s.last())
        } else {
            rest
        }
    }
}

pub open spec fn is_ascii_upper(c: char) -> bool {
    'A' <= c <= 'Z'
}

pub open spec fn is_ascii_alpha(c: char) -> bool {
    'A' <= c <= 'Z' || 'a' <= c <= 'z'
}

pub open spec fn count_upper(s: Seq<char>) -> nat
    decreases s.len(),
{
    if s.len() == 0 {
        0
    } else {
        count_upper(s.drop_last()) + if is_ascii_upper(s.last()) {
            1nat
        } else {
            0nat
        }
    }
}

pub open spec fn count_alpha(s: Seq<char>) -> nat
    decreases s.len(),
{
    if s.len() == 0 {
        0
    } else {
        count_alpha(s.drop_last()) + if is_ascii_alpha(s.last()) {
            1nat
        } else {
            0nat
        }
    }
}

/// A message longer than five bytes in which more than seven in ten ASCII
/// letters are upper case.
pub open spec fn screaming(m: Seq<char>) -> bool {
    encode_utf8(m).len() > 5 && 10 * count_upper(m) > 7 * count_alpha(m)
}

/// What the profanity censor makes of a text.
pub uninterp spec fn censored(s: Seq<char>) -> Seq<char>;

/// Relies on rustrict's `CensorStr::censor` for `&str`: with the crate's fixed
/// word lists the output depends on the input characters alone.
#[verifier::external_body]
pub(crate) fn censor_text(s: &str) -> (r: String)
    ensures
        r@ == censored(s@),
{
    s.censor()
}

/// Relies on std's `String::push`: appends one character.
#[verifier::external_body]
pub(crate) fn push_char(s: &mut String, c: char)
    ensures
        final(s)@ == old(s)@.push(c),
{
    s.push(c)
}

proof fn lemma_encode_len(cs: Seq<char>)
    ensures
        cs.len() <= encode_utf8(cs).len(),
    decreases cs.len(),
{
    if cs.len() > 0 {
        lemma_encode_len(cs.drop_first());
    }
}

/// The length of `s` in bytes; its length in characters is no larger.
pub fn byte_len(s: &str) -> (r: usize)
    ensures
        r == encode_utf8(s@).len(),
        s@.len() <= r,
{
    let b = s.as_bytes();
    proof {
        lemma_encode_len(s@);
    }
    b.len()
}

pub fn is_allowed_char(c: char) -> (r: bool)
    ensures
        r == allowed_char(c),
{
    ('a' <= c && c <= 'z') || ('A' <= c && c <= 'Z') || ('0' <= c && c <= '9') || c == ' '
        || c == '\n' || c == '?' || c == '!' || c == '@' || c == '#' || c == '$' || c == '%'
        || c == '^' || c == '&' || c == '*' || c == '(' || c == ')' || c == '{' || c == '}'
        || c == '[' || c == ']' || c == ';' || c == ':' || c == '\'' || c == '"' || c == '\\'
        || c == '|' || c == '/' || c == ',' || c == '.' || c == '<' || c == '>' || c == '-'
        || c == '_' || c == '=' || c == '+' || c == '`' || c == '\u{1F602}' || c
        == '\u{1F923}' || c == '\u{1F914}' || c == '\u{1F928}' || c == '\u{1F644}' || c
        == '\u{1F62D}' || c == '\u{1F60E}' || c == '\u{1F976}' || c == '\u{1F624}' || c
        == '\u{1F44D}' || c == '\u{1F44E}' || c == '\u{1F480}' || c == '\u{1F5FF}' || c
        == '\u{1F525}' || c == '\u{1F384}' || c == '\u{1F383}' || c == '\u{1F53A}' || c
        == '\u{1F53B}' || c == '\u{1F921}' || c == '\u{1F3AA}' || c == '\u{1F3B6}' || c
        == '\u{1F3B5}'
}

/// Keeps only the characters of `s` that are on the allow-list.
pub fn sanitize_chat(s: &str) -> (r: String)
    ensures
        r@ == sanitized(s@),
{
    let mut out = String::new();
    for c in it: s.chars()
        invariant
            it.seq() == s@,
            out@ == sanitized(s@.take(it.index() as int)),
    {
        proof {
            assert(s@.take(it.index() as int + 1).drop_last() == s@.take(it.index() as int));
        }
        if is_allowed_char(c) {
            push_char(&mut out, c);
        }
    }
    proof {
        assert(s@.take(s@.len() as int) == s@);
    }
    out
}

/// Numbers of upper-case and of all ASCII letters in `s`.
pub fn letter_counts(s: &str) -> (r: (usize, usize))
    ensures
        r.0 == count_upper(s@),
        r.1 == count_alpha(s@),
{
    let total = byte_len(s);
    let mut upper: usize = 0;
    let mut alpha: usize = 0;
    for c in it: s.chars()
        invariant
            it.seq() == s@,
            s@.len() <= total,
            upper == count_upper(s@.take(it.index() as int)),
            alpha == count_alpha(s@.take(it.index() as int)),
            upper <= it.index(),
            alpha <= it.index(),
    {
        proof {
            assert(s@.take(it.index() as int + 1).drop_last() == s@.take(it.index() as int));
        }
        if 'A' <= c && c <= 'Z' {
            upper = upper + 1;
        }
        if ('A' <= c && c <= 'Z') || ('a' <= c && c <= 'z') {
            alpha = alpha + 1;
        }
    }
    proof {
        assert(s@.take(s@.len() as int) == s@);
    }
    (upper, alpha)
}

/// The screaming detector.
pub fn is_screaming(m: &str) -> (r: bool)
    ensures
        r == screaming(m@),
{
    let n = byte_len(m);
    if n <= 5 {
        return false;
    }
    let (upper, alpha) = letter_counts(m);
    assert(count_upper(m@) <= m@.len()) by {
        lemma_counts_bounded(m@);
    }
    10 * (upper as u128) > 7 * (alpha as u128)
}

proof fn lemma_counts_bounded(s: Seq<char>)
    ensures
        count_upper(s) <= count_alpha(s) <= s.len(),
    decreases s.len(),
{
    if s.len() > 0 {
        lemma_counts_bounded(s.drop_last());
    }
}

/// Shortest and longest accepted display names, in bytes.
pub const NAME_MIN: usize = 3;
pub const NAME_MAX: usize = 14;

/// Display time of an announcement, in seconds.
pub const ANNOUNCEMENT_TIMER: u32 = 300;

/// Whether `c` is `t` or, for an upper-case ASCII letter `t`, its lower-case form.
pub open spec fn folds_to(c: char, t: char) -> bool {
    c == t || ('A' <= t <= 'Z' && c as u32 == t as u32 + 32)
}

/// Whether `s`, read without regard to ASCII case, is `t` (upper case).
pub open spec fn equals_folded(s: Seq<char>, t: Seq<char>) -> bool {
    s.len() == t.len() && forall|k: int| 0 <= k < t.len() ==> folds_to(#[trigger] s[k], t[k])
}

pub open spec fn server_token() -> Seq<char> {
    seq!['S', 'E', 'R', 'V', 'E', 'R']
}

pub open spec fn announcement_token() -> Seq<char> {
    seq!['A', 'N', 'N', 'O', 'U', 'N', 'C', 'E', 'M', 'E', 'N', 'T']
}

/// Whether `s` holds "SERVER" in any ASCII case.
pub open spec fn mentions_server(s: Seq<char>) -> bool {
    exists|i: int| 0 <= i && i + 6 <= s.len() && #[trigger] equals_folded(s.subrange(i, i + 6), server_token())
}

/// The display-name policy: 3 to 14 bytes, no "SERVER" in any case, and
/// unchanged by sanitizing and censoring.
pub open spec fn name_valid(name: Seq<char>) -> bool {
    &&& NAME_MIN <= encode_utf8(name).len() <= NAME_MAX
    &&& !mentions_server(name)
    &&& censored(sanitized(name)) == name
}

fn fold_eq(c: char, t: char) -> (r: bool)
    ensures
        r == folds_to(c, t),
{
    c == t || ('A' <= t && t <= 'Z' && (c as u32) == (t as u32) + 32)
}

fn window_equals_folded(s: &str, start: usize, t: &Vec<char>) -> (r: bool)
    requires
        start + t@.len() <= s@.len(),
        s@.len() <= usize::MAX,
    ensures
        r == equals_folded(s@.subrange(start as int, start + t@.len()), t@),
{
    let mut k: usize = 0;
    while k < t.len()
        invariant
            start + t@.len() <= s@.len(),
            s@.len() <= usize::MAX,
            k <= t@.len(),
            forall|j: int| 0 <= j < k ==> folds_to(#[trigger] s@[start + j], t@[j]),
        decreases t.len() - k,
    {
        if !fold_eq(s.get_char(start + k), t[k]) {
            assert(!folds_to(s@.subrange(start as int, start + t@.len())[k as int], t@[k as int]));
            return false;
        }
        k = k + 1;
    }
    assert forall|j: int| 0 <= j < t@.len() implies folds_to(
        #[trigger] s@.subrange(start as int, start + t@.len())[j],
        t@[j],
    ) by {
        assert(s@.subrange(start as int, start + t@.len())[j] == s@[start + j]);
    }
    true
}

/// Whether `name` mentions "SERVER" in any ASCII case.
pub fn contains_server(name: &str) -> (r: bool)
    ensures
        r == mentions_server(name@),
{
    let token = vec!['S', 'E', 'R', 'V', 'E', 'R'];
    assert(token@ == server_token());
    let n = name.unicode_len();
    if n < 6 {
        return false;
    }
    let mut i: usize = 0;
    while i <= n - 6
        invariant
            n == name@.len(),
            n >= 6,
            i <= n - 5,
            token@ == server_token(),
            forall|j: int| 0 <= j < i ==> !#[trigger] equals_folded(name@.subrange(j, j + 6), server_token()),
        decreases n - i,
    {
        if window_equals_folded(name, i, &token) {
            return true;
        }
        i = i + 1;
    }
    assert forall|j: int| 0 <= j && j + 6 <= name@.len() implies !#[trigger] equals_folded(
        name@.subrange(j, j + 6),
        server_token(),
    ) by {}
    false
}

/// The display-name policy.
pub fn is_name_valid(name: &str) -> (r: bool)
    ensures
        r == name_valid(name@),
{
    let n = byte_len(name);
    if n < NAME_MIN || n > NAME_MAX {
        return false;
    }
    if contains_server(name) {
        return false;
    }
    let cleaned = censor_text(sanitize_chat(name).as_str());
    cleaned == String::from_str(name)
}

/// `p` is the position of the first space of `s`.
pub open spec fn first_space_at(s: Seq<char>, p: int) -> bool {
    0 <= p < s.len() && s[p] == ' ' && forall|j: int| 0 <= j < p ==> s[j] != ' '
}

/// The command word and its argument in a chat text that starts with `/`:
/// the text after the slash, split at its first space.
pub open spec fn command_split(m: Seq<char>, cmd: Seq<char>, arg: Seq<char>) -> bool {
    exists|p: int|
        #![trigger first_space_at(m.drop_first(), p)]
        first_space_at(m.drop_first(), p) && cmd == m.drop_first().subrange(0, p) && arg
            == m.drop_first().subrange(p + 1, m.drop_first().len() as int)
}

pub open spec fn has_command_split(m: Seq<char>) -> bool {
    m.len() > 0 && exists|p: int| 0 <= p < m.drop_first().len() && m.drop_first()[p] == ' '
}

/// Splits a chat command into its word and its argument.
pub fn split_command(m: &str) -> (r: Option<(String, String)>)
    ensures
        r is Some <==> has_command_split(m@),
        r matches Some((cmd, arg)) ==> command_split(m@, cmd@, arg@),
{
    let n = m.unicode_len();
    if n == 0 {
        return None;
    }
    let mut i: usize = 1;
    while i < n
        invariant
            n == m@.len(),
            1 <= i <= n,
            forall|j: int| 1 <= j < i ==> m@[j] != ' ',
        decreases n - i,
    {
        if m.get_char(i) == ' ' {
            let cmd = m.substring_char(1, i);
            let arg = m.substring_char(i + 1, n);
            assert(first_space_at(m@.drop_first(), i - 1));
            assert(cmd@ == m@.drop_first().subrange(0, i - 1));
            assert(arg@ == m@.drop_first().subrange(i as int, m@.drop_first().len() as int));
            return Some((String::from_str(cmd), String::from_str(arg)));
        }
        i = i + 1;
    }
    assert forall|p: int| 0 <= p < m@.drop_first().len() implies m@.drop_first()[p] != ' ' by {
        assert(m@.drop_first()[p] == m@[p + 1]);
    }
    None
}

/// Whether `cmd` is the announcement command, in any ASCII case.
pub fn is_announcement_command(cmd: &str) -> (r: bool)
    ensures
        r == equals_folded(cmd@, announcement_token()),
{
    let token = vec!['A', 'N', 'N', 'O', 'U', 'N', 'C', 'E', 'M', 'E', 'N', 'T'];
    assert(token@ == announcement_token());
    if cmd.unicode_len() != 12 {
        return false;
    }
    let r = window_equals_folded(cmd, 0, &token);
    assert(cmd@.subrange(0, 12) == cmd@);
    r
}

/// An announcement shown to everyone in a room.
#[derive(Clone, Debug)]
pub struct AnnouncementMsg {
    pub message: String,
    pub timer: u32,
}

/// The announcement that a privileged chat command asks for, if the text is
/// such a command and `auth` may send it.
pub open spec fn command_announcement(m: Seq<char>, auth: AuthInfo, text: Seq<char>) -> bool {
    has_command_split(m) && exists|cmd: Seq<char>|
        #![trigger equals_folded(cmd, announcement_token())]
        command_split(m, cmd, text) && equals_folded(cmd, announcement_token())
            && auth.grants(Permission::SendAnnouncement)
}

/// Runs a chat command: only the announcement command exists, and it needs
/// the permission to send announcements. Anything else does nothing.
pub fn handle_command(message: &str, auth: &AuthInfo) -> (r: Option<AnnouncementMsg>)
    ensures
        r matches Some(a) ==> a.timer == ANNOUNCEMENT_TIMER && command_announcement(
            message@,
            *auth,
            a.message@,
        ),
        r is None ==> forall|t: Seq<char>| !command_announcement(message@, *auth, t),
{
    match split_command(message) {
        Some((cmd, arg)) => {
            proof {
                lemma_split_unique(message@);
            }
            if !is_announcement_command(cmd.as_str()) {
                return None;
            }
            if !auth.has_permission(&Permission::SendAnnouncement) {
                return None;
            }
            Some(AnnouncementMsg { message: arg, timer: ANNOUNCEMENT_TIMER })
        },
        None => None,
    }
}

proof fn lemma_split_unique(m: Seq<char>)
    ensures
        forall|c1: Seq<char>, a1: Seq<char>, c2: Seq<char>, a2: Seq<char>|
            command_split(m, c1, a1) && command_split(m, c2, a2) ==> c1 == c2 && a1 == a2,
{
    assert forall|c1: Seq<char>, a1: Seq<char>, c2: Seq<char>, a2: Seq<char>|
        command_split(m, c1, a1) && command_split(m, c2, a2) implies c1 == c2 && a1 == a2 by {
        let p1 = choose|p: int| first_space_at(m.drop_first(), p) && c1 == m.drop_first().subrange(0, p) && a1 == m.drop_first().subrange(p + 1, m.drop_first().len() as int);
        let p2 = choose|p: int| first_space_at(m.drop_first(), p) && c2 == m.drop_first().subrange(0, p) && a2 == m.drop_first().subrange(p + 1, m.drop_first().len() as int);
        if p1 < p2 {
            assert(m.drop_first()[p1] != ' ');
        } else if p2 < p1 {
            assert(m.drop_first()[p2] != ' ');
        }
    }
}

} // verus!
