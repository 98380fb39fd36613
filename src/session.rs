use vstd::prelude::*;

use crate::markup::same_text;
use crate::dates::digit_char;
use crate::text::{chars_of, slice, string_of};
use crate::week::push_all;

verus! {

/// The school year sent with every request unless another is set.
pub const DEFAULT_SCHOOL_YEAR: u32 = 2022;

/// Name of the portal's session cookie.
pub const SESSION_COOKIE: &'static str = "EfebSsoCookie";

/// The value the portal sends in place of a session it has ended.
pub const DEAD_COOKIE: &'static str = "null";

/// One of the two tracked accounts.
#[derive(PartialEq, Eq, Structural, Debug, Clone, Copy)]
pub enum Group {
    One,
    Two,
}

/// One of the portal's two virtual hosts.
#[derive(PartialEq, Eq, Structural, Debug, Clone, Copy)]
pub enum Host {
    UonetPlus,
    UonetPlusUczen,
}

impl Host {
    pub open spec fn name_spec(self) -> Seq<char> {
        match self {
            Host::UonetPlus => "uonetplus.vulcan.net.pl"@,
            Host::UonetPlusUczen => "uonetplus-uczen.vulcan.net.pl"@,
        }
    }

    /// The host name that requests carry.
    pub fn name(&self) -> (r: &'static str)
        ensures
            r@ == self.name_spec(),
    {
        match self {
            Host::UonetPlus => "uonetplus.vulcan.net.pl",
            Host::UonetPlusUczen => "uonetplus-uczen.vulcan.net.pl",
        }
    }
}

/// A group's session credential and account identifiers.
pub struct AuthInfo {
    pub cookie: String,
    pub student_id: u32,
    pub register_id: u32,
    pub school_year: u32,
}

impl Default for AuthInfo {
    fn default() -> (r: AuthInfo)
        ensures
            r.cookie@.len() == 0,
            r.student_id == 0,
            r.register_id == 0,
            r.school_year == DEFAULT_SCHOOL_YEAR,
    {
        AuthInfo {
            cookie: String::new(),
            student_id: 0,
            register_id: 0,
            school_year: DEFAULT_SCHOOL_YEAR,
        }
    }
}

impl Group {
    pub open spec fn student_id_spec(self) -> u32 {
        match self {
            Group::One => 4033,
            Group::Two => 4040,
        }
    }

    /// The credential a group starts with, before its cookie is loaded.
    pub fn initial_auth(&self) -> (r: AuthInfo)
        ensures
            r.cookie@.len() == 0,
            r.student_id == self.student_id_spec(),
            r.register_id == 1403,
            r.school_year == DEFAULT_SCHOOL_YEAR,
    {
        let student_id: u32 = match self {
            Group::One => 4033,
            Group::Two => 4040,
        };
        AuthInfo {
            cookie: String::new(),
            student_id,
            register_id: 1403,
            school_year: DEFAULT_SCHOOL_YEAR,
        }
    }
}

/// Why a credential refresh failed.
#[derive(PartialEq, Eq, Structural, Debug, Clone, Copy)]
pub enum RefreshError {
    /// The response set no cookie.
    MissingCookie,
    /// The portal ended the session: the credential is dead.
    DeadCredential,
}

/// A character that `char::is_whitespace` accepts: Unicode White_Space.
pub open spec fn is_space(c: char) -> bool {
    ||| ('\t' <= c && c <= '\r')
    ||| c == ' '
    ||| c == '\u{85}'
    ||| c == '\u{a0}'
    ||| c == '\u{1680}'
    ||| ('\u{2000}' <= c && c <= '\u{200a}')
    ||| c == '\u{2028}'
    ||| c == '\u{2029}'
    ||| c == '\u{202f}'
    ||| c == '\u{205f}'
    ||| c == '\u{3000}'
}

/// `s` without leading white space.
pub open spec fn trim_start(s: Seq<char>) -> Seq<char>
    decreases s.len(),
{
    if s.len() > 0 && is_space(s[0]) {
        trim_start(s.skip(1))
    } else {
        s
    }
}

/// `s` without trailing white space.
pub open spec fn trim_end(s: Seq<char>) -> Seq<char>
    decreases s.len(),
{
    if s.len() > 0 && is_space(s.last()) {
        trim_end(s.drop_last())
    } else {
        s
    }
}

/// What `str::trim` leaves of `s`.
pub open spec fn trimmed(s: Seq<char>) -> Seq<char> {
    trim_end(trim_start(s))
}

/// The name and value of one cookie written `name=value`, both trimmed;
/// nothing where there is no `=` or the name is empty.
pub open spec fn cookie_of(piece: Seq<char>) -> Option<(Seq<char>, Seq<char>)> {
    let t = trimmed(piece);
    match crate::text::find_spec(t, "="@) {
        None => None,
        Some(i) => {
            let name = trimmed(t.take(i));
            if name.len() == 0 {
                None
            } else {
                Some((name, trimmed(t.skip(i + 1))))
            }
        },
    }
}

/// The cookies of the pieces, in order: pieces of white space only are
/// passed over, and so are those that do not read as a cookie.
pub open spec fn cookies_of(pieces: Seq<Seq<char>>) -> Seq<(Seq<char>, Seq<char>)>
    decreases pieces.len(),
{
    if pieces.len() == 0 {
        Seq::empty()
    } else {
        let rest = cookies_of(pieces.drop_last());
        let p = pieces.last();
        if forall|k: int| 0 <= k < p.len() ==> is_space(p[k]) {
            rest
        } else {
            match cookie_of(p) {
                Some(c) => rest.push(c),
                None => rest,
            }
        }
    }
}

/// The name and value of each cookie that cookie's `split_parse` reads from
/// a header: the header cut at every `;`.
pub open spec fn cookie_pairs(header: Seq<char>) -> Seq<(Seq<char>, Seq<char>)> {
    cookies_of(crate::text::split_spec(header, ";"@))
}

pub open spec fn pairs_view(v: Seq<(String, String)>) -> Seq<(Seq<char>, Seq<char>)> {
    v.map_values(|p: (String, String)| (p.0@, p.1@))
}

/// Relies on cookie::Cookie::split_parse, with `name` and `value`: it cuts
/// the header at every `;`, passes over pieces of white space, trims each
/// piece and reads it as `name=value`, both sides trimmed; a piece without
/// `=` or with an empty name is an error, which is left out here.
#[verifier::external_body]
fn split_cookies(header: &str) -> (r: Vec<(String, String)>)
    ensures
        pairs_view(r@) == cookie_pairs(header@),
{
    cookie::Cookie::split_parse(header).filter_map(|c| c.ok()).map(
        |c| (c.name().to_owned(), c.value().to_owned()),
    ).collect()
}

/// `i` is the first pair that names the session cookie.
pub open spec fn is_first_session(pairs: Seq<(Seq<char>, Seq<char>)>, i: int) -> bool {
    0 <= i < pairs.len() && pairs[i].0 == SESSION_COOKIE@ && forall|j: int|
        0 <= j < i ==> pairs[j].0 != SESSION_COOKIE@
}

/// The value of the first session cookie among the pairs.
pub open spec fn session_value(pairs: Seq<(Seq<char>, Seq<char>)>) -> Option<Seq<char>> {
    if exists|i: int| is_first_session(pairs, i) {
        Some(pairs[choose|i: int| is_first_session(pairs, i)].1)
    } else {
        None
    }
}

/// The credential after a refresh that received `pairs`: committed where
/// the session cookie came with a live value, unchanged otherwise.
pub open spec fn refreshed(old: AuthInfo, new: AuthInfo, pairs: Seq<(Seq<char>, Seq<char>)>, r: Result<Option<String>, RefreshError>) -> bool {
    match session_value(pairs) {
        None => r == Ok::<Option<String>, RefreshError>(None) && new == old,
        Some(v) => if v == DEAD_COOKIE@ {
            r == Err::<Option<String>, RefreshError>(RefreshError::DeadCredential) && new == old
        } else {
            &&& r matches Ok(Some(s)) && s@ == v
            &&& new.cookie@ == v
            &&& new.student_id == old.student_id
            &&& new.register_id == old.register_id
            &&& new.school_year == old.school_year
        },
    }
}

/// Commits the session cookie among `pairs` into `auth`, and returns the
/// value to persist. A dead value changes nothing and is an error.
pub fn apply_cookies(auth: &mut AuthInfo, pairs: &Vec<(String, String)>) -> (r: Result<
    Option<String>,
    RefreshError,
>)
    ensures
        refreshed(*old(auth), *final(auth), pairs_view(pairs@), r),
{
    let ghost pv = pairs_view(pairs@);
    let mut i: usize = 0;
    while i < pairs.len()
        invariant
            pv == pairs_view(pairs@),
            pv.len() == pairs@.len(),
            i <= pairs@.len(),
            *auth == *old(auth),
            forall|j: int| 0 <= j < i ==> pv[j].0 != SESSION_COOKIE@,
        decreases pairs@.len() - i,
    {
        if same_text(pairs[i].0.as_str(), SESSION_COOKIE) {
            proof {
                assert(is_first_session(pv, i as int));
                let c = choose|c: int| is_first_session(pv, c);
                if c < i {
                    assert(pv[c].0 != SESSION_COOKIE@);
                } else if i < c {
                    assert(pv[i as int].0 != SESSION_COOKIE@);
                }
            }
            if same_text(pairs[i].1.as_str(), DEAD_COOKIE) {
                return Err(RefreshError::DeadCredential);
            }
            auth.cookie = pairs[i].1.clone();
            return Ok(Some(pairs[i].1.clone()));
        }
        i = i + 1;
    }
    Ok(None)
}

/// One refresh of a credential from the `Set-Cookie` header of the
/// keep-alive response (`None` where the response set none).
pub fn apply_refresh(auth: &mut AuthInfo, set_cookie: Option<&str>) -> (r: Result<
    Option<String>,
    RefreshError,
>)
    ensures
        match set_cookie {
            None => r == Err::<Option<String>, RefreshError>(RefreshError::MissingCookie)
                && *final(auth) == *old(auth),
            Some(h) => refreshed(*old(auth), *final(auth), cookie_pairs(h@), r),
        },
{
    match set_cookie {
        None => Err(RefreshError::MissingCookie),
        Some(h) => {
            let pairs = split_cookies(h);
            apply_cookies(auth, &pairs)
        },
    }
}

/// What `str::lines` yields first: the text up to the first line feed, less
/// a carriage return before it; nothing for empty text.
pub open spec fn first_line_spec(s: Seq<char>) -> Option<Seq<char>> {
    if s.len() == 0 {
        None
    } else {
        let line = crate::text::before_char(s, '\n');
        if line.len() > 0 && line.last() == '\r' {
            Some(line.drop_last())
        } else {
            Some(line)
        }
    }
}

/// The first line of a stored credential file.
pub fn first_line(contents: &str) -> (r: Option<String>)
    ensures
        match r {
            Some(l) => first_line_spec(contents@) == Some(l@),
            None => first_line_spec(contents@) is None,
        },
{
    let cs = chars_of(contents);
    if cs.len() == 0 {
        return None;
    }
    let line = crate::week::before(cs.as_slice(), '\n');
    if line.len() > 0 && line[line.len() - 1] == '\r' {
        let trimmed = slice(line.as_slice(), 0, line.len() - 1);
        assert(trimmed@ =~= line@.drop_last());
        Some(string_of(trimmed.as_slice()))
    } else {
        Some(string_of(line.as_slice()))
    }
}

/// Seeds a credential from its stored file: the file's first line becomes
/// the cookie. An empty file seeds nothing and returns false.
pub fn seed_cookie(auth: &mut AuthInfo, contents: &str) -> (r: bool)
    ensures
        r == (first_line_spec(contents@) is Some),
        r ==> Some(final(auth).cookie@) == first_line_spec(contents@),
        !r ==> *final(auth) == *old(auth),
        final(auth).student_id == old(auth).student_id,
        final(auth).register_id == old(auth).register_id,
        final(auth).school_year == old(auth).school_year,
{
    match first_line(contents) {
        Some(l) => {
            auth.cookie = l;
            true
        },
        None => false,
    }
}


/// `n` in decimal, without leading zeros.
pub open spec fn decimal_text(n: nat) -> Seq<char>
    decreases n,
{
    if n < 10 {
        seq![digit_char(n as int)]
    } else {
        decimal_text(n / 10).push(digit_char((n % 10) as int))
    }
}

pub open spec fn reversed_chars(s: Seq<char>) -> Seq<char> {
    Seq::new(s.len(), |i: int| s[s.len() - 1 - i])
}

/// Appends `n` in decimal to `v`.
pub fn push_decimal(v: &mut Vec<char>, n: u32)
    ensures
        final(v)@ == old(v)@ + decimal_text(n as nat),
{
    let digits: [char; 10] = ['0', '1', '2', '3', '4', '5', '6', '7', '8', '9'];
    proof {
        reveal_strlit("0123456789");
        assert(digits@ =~= "0123456789"@);
    }
    let mut low: Vec<char> = Vec::new();
    let mut m: u32 = n;
    while m >= 10
        invariant
            digits@ == "0123456789"@,
            decimal_text(n as nat) == decimal_text(m as nat) + reversed_chars(low@),
        decreases m,
    {
        let d = digits[(m % 10) as usize];
        let ghost before = low@;
        low.push(d);
        proof {
            assert(reversed_chars(low@) =~= seq![d] + reversed_chars(before));
            assert(decimal_text(m as nat) == decimal_text((m / 10) as nat).push(d));
            assert(decimal_text((m / 10) as nat).push(d) + reversed_chars(before) =~= decimal_text(
                (m / 10) as nat,
            ) + reversed_chars(low@));
        }
        m = m / 10;
    }
    let ghost before = low@;
    low.push(digits[m as usize]);
    assert(reversed_chars(low@) =~= decimal_text(n as nat)) by {
        assert(reversed_chars(low@) =~= seq![digits@[m as int]] + reversed_chars(before));
    }
    let mut i: usize = low.len();
    let ghost start = v@;
    while i > 0
        invariant
            i <= low@.len(),
            v@ == start + reversed_chars(low@).take(low@.len() - i),
        decreases i,
    {
        i = i - 1;
        v.push(low[i]);
        assert(v@ =~= start + reversed_chars(low@).take(low@.len() - i));
    }
    assert(reversed_chars(low@).take(low@.len() as int) =~= reversed_chars(low@));
}

/// The `Cookie` header every request carries: the session cookie and the
/// account, register and school year.
pub open spec fn cookie_header_spec(auth: AuthInfo) -> Seq<char> {
    "EfebSsoCookie="@ + auth.cookie@ + "; idBiezacyUczen="@ + decimal_text(auth.student_id as nat)
        + "; idBiezacyDziennik="@ + decimal_text(auth.register_id as nat) + "; biezacyRokSzkolny="@
        + decimal_text(auth.school_year as nat)
}

/// The `Cookie` header of a group's requests.
pub fn cookie_header(auth: &AuthInfo) -> (r: String)
    ensures
        r@ == cookie_header_spec(*auth),
{
    let mut v = chars_of("EfebSsoCookie=");
    let c = chars_of(auth.cookie.as_str());
    push_all(&mut v, c.as_slice());
    let a = chars_of("; idBiezacyUczen=");
    push_all(&mut v, a.as_slice());
    push_decimal(&mut v, auth.student_id);
    let b = chars_of("; idBiezacyDziennik=");
    push_all(&mut v, b.as_slice());
    push_decimal(&mut v, auth.register_id);
    let y = chars_of("; biezacyRokSzkolny=");
    push_all(&mut v, y.as_slice());
    push_decimal(&mut v, auth.school_year);
    string_of(v.as_slice())
}

} // verus!
