//! Validated values: a string, a number or an address that has passed a
//! check when it was made, so that whoever holds one need not check again.

use vstd::prelude::*;
use vstd::string::*;
use crate::errors::{ValidationError, ValidationErrorModel};
use crate::types::same;

verus! {

/// The characters that count as white space when a string is trimmed.
pub open spec fn spec_is_whitespace(c: char) -> bool {
    let n = c as u32;
    ||| 0x09 <= n <= 0x0d
    ||| n == 0x20
    ||| n == 0x85
    ||| n == 0xa0
    ||| n == 0x1680
    ||| 0x2000 <= n <= 0x200a
    ||| n == 0x2028
    ||| n == 0x2029
    ||| n == 0x202f
    ||| n == 0x205f
    ||| n == 0x3000
}

pub open spec fn spec_trim_start(s: Seq<char>) -> Seq<char>
    decreases s.len(),
{
    if s.len() > 0 && spec_is_whitespace(s[0]) {
        spec_trim_start(s.drop_first())
    } else {
        s
    }
}

pub open spec fn spec_trim_end(s: Seq<char>) -> Seq<char>
    decreases s.len(),
{
    if s.len() > 0 && spec_is_whitespace(s.last()) {
        spec_trim_end(s.drop_last())
    } else {
        s
    }
}

/// `s` without the white space at its start and at its end.
pub open spec fn spec_trim(s: Seq<char>) -> Seq<char> {
    spec_trim_end(spec_trim_start(s))
}

/// Whether `s` begins with `prefix`.
pub open spec fn spec_starts_with(s: Seq<char>, prefix: Seq<char>) -> bool {
    prefix.len() <= s.len() && s.subrange(0, prefix.len() as int) == prefix
}

pub open spec fn spec_is_ascii_alphabetic(c: char) -> bool {
    ('a' <= c <= 'z') || ('A' <= c <= 'Z')
}

pub open spec fn spec_is_ascii_digit(c: char) -> bool {
    '0' <= c <= '9'
}

/// Whether `c` may stand in a package name: a letter, a digit, a hyphen or
/// an underscore.
pub open spec fn spec_is_name_char(c: char) -> bool {
    spec_is_ascii_alphabetic(c) || spec_is_ascii_digit(c) || c == '-' || c == '_'
}

pub fn is_whitespace(c: char) -> (r: bool)
    ensures
        r == spec_is_whitespace(c),
{
    let n = c as u32;
    (0x09 <= n && n <= 0x0d) || n == 0x20 || n == 0x85 || n == 0xa0 || n == 0x1680 || (0x2000
        <= n && n <= 0x200a) || n == 0x2028 || n == 0x2029 || n == 0x202f || n == 0x205f || n
        == 0x3000
}

/// `s` without the white space at its start and at its end.
pub fn trim(s: &str) -> (r: &str)
    ensures
        r@ == spec_trim(s@),
{
    let n = s.unicode_len();
    let mut start: usize = 0;
    assert(s@.subrange(0, n as int) =~= s@);
    while start < n && is_whitespace(s.get_char(start))
        invariant
            n == s@.len(),
            start <= n,
            spec_trim_start(s@) == spec_trim_start(s@.subrange(start as int, n as int)),
        decreases n - start,
    {
        assert(s@.subrange(start as int, n as int).drop_first() =~= s@.subrange(
            start + 1,
            n as int,
        ));
        start = start + 1;
    }
    let ghost rest = s@.subrange(start as int, n as int);
    assert(spec_trim_start(s@) == rest);
    let mut end: usize = n;
    while end > start && is_whitespace(s.get_char(end - 1))
        invariant
            n == s@.len(),
            start <= end <= n,
            rest == s@.subrange(start as int, n as int),
            spec_trim_end(rest) == spec_trim_end(s@.subrange(start as int, end as int)),
        decreases end,
    {
        assert(s@.subrange(start as int, end as int).drop_last() =~= s@.subrange(
            start as int,
            end - 1,
        ));
        end = end - 1;
    }
    s.substring_char(start, end)
}

/// Whether `s` begins with `prefix`.
pub fn starts_with(s: &str, prefix: &str) -> (r: bool)
    ensures
        r == spec_starts_with(s@, prefix@),
{
    let n = prefix.unicode_len();
    if n > s.unicode_len() {
        false
    } else {
        same(s.substring_char(0, n), prefix)
    }
}

/// A URL that begins with `http://` or `https://`.
#[derive(Debug, Clone, PartialEq, Eq, Hash)]
pub struct Url(String);

impl View for Url {
    type V = Seq<char>;

    closed spec fn view(&self) -> Seq<char> {
        self.0@
    }
}

impl Url {
    /// Whether a trimmed string is a URL.
    pub open spec fn spec_valid(s: Seq<char>) -> bool {
        spec_starts_with(s, "http://"@) || spec_starts_with(s, "https://"@)
    }

    /// Takes a URL from a string: the string is trimmed, and what is left
    /// must not be empty and must begin with one of the two schemes.
    pub fn parse(s: &str) -> (r: Result<Url, ValidationError>)
        ensures
            match r {
                Ok(url) => url@ == spec_trim(s@) && Url::spec_valid(url@) && url@.len() > 0,
                Err(e) => e@ == if spec_trim(s@).len() == 0 {
                    ValidationErrorModel::EmptyValue { field: "url"@ }
                } else {
                    ValidationErrorModel::InvalidUrl(spec_trim(s@))
                } && (spec_trim(s@).len() == 0 || !Url::spec_valid(spec_trim(s@))),
            },
    {
        let t = trim(s);
        if t.unicode_len() == 0 {
            return Err(ValidationError::EmptyValue { field: "url".to_owned() });
        }
        if starts_with(t, "http://") || starts_with(t, "https://") {
            Ok(Url(t.to_owned()))
        } else {
            Err(ValidationError::InvalidUrl(t.to_owned()))
        }
    }

    pub fn as_str(&self) -> (r: &str)
        ensures
            r@ == self@,
    {
        self.0.as_str()
    }

    pub fn into_inner(self) -> (r: String)
        ensures
            r@ == self@,
    {
        self.0
    }
}

/// A package name: letters, digits, hyphens and underscores, a letter
/// first.
#[derive(Debug, Clone, PartialEq, Eq, Hash)]
pub struct PackageName(String);

impl View for PackageName {
    type V = Seq<char>;

    closed spec fn view(&self) -> Seq<char> {
        self.0@
    }
}

impl PackageName {
    /// Whether every character may stand in a package name.
    pub open spec fn spec_all_name_chars(s: Seq<char>) -> bool {
        forall|i: int| 0 <= i < s.len() ==> spec_is_name_char(#[trigger] s[i])
    }

    /// What taking a package name from the trimmed string `t` gives.
    pub open spec fn spec_parse(t: Seq<char>) -> Result<Seq<char>, ValidationErrorModel> {
        if t.len() == 0 {
            Err(ValidationErrorModel::EmptyValue { field: "package_name"@ })
        } else if !spec_is_ascii_alphabetic(t[0]) {
            Err(ValidationErrorModel::InvalidPackageName("must start with a letter: "@ + t))
        } else if !Self::spec_all_name_chars(t) {
            Err(ValidationErrorModel::InvalidPackageName("invalid characters: "@ + t))
        } else {
            Ok(t)
        }
    }

    /// Takes a package name from a string: the string is trimmed, and what
    /// is left must not be empty, must begin with a letter, and must hold
    /// nothing but letters, digits, hyphens and underscores.
    pub fn parse(s: &str) -> (r: Result<PackageName, ValidationError>)
        ensures
            match r {
                Ok(name) => Self::spec_parse(spec_trim(s@)) == Ok::<
                    Seq<char>,
                    ValidationErrorModel,
                >(name@),
                Err(e) => Self::spec_parse(spec_trim(s@)) == Err::<
                    Seq<char>,
                    ValidationErrorModel,
                >(e@),
            },
    {
        let t = trim(s);
        let n = t.unicode_len();
        if n == 0 {
            return Err(ValidationError::EmptyValue { field: "package_name".to_owned() });
        }
        let first = t.get_char(0);
        if !((first >= 'a' && first <= 'z') || (first >= 'A' && first <= 'Z')) {
            return Err(
                ValidationError::InvalidPackageName(
                    String::from_str("must start with a letter: ").concat(t),
                ),
            );
        }
        let mut i: usize = 0;
        while i < n
            invariant
                n == t@.len(),
                n > 0,
                t@ == spec_trim(s@),
                spec_is_ascii_alphabetic(t@[0]),
                i <= n,
                forall|j: int| 0 <= j < i ==> spec_is_name_char(#[trigger] t@[j]),
            decreases n - i,
        {
            let c = t.get_char(i);
            let ok = (c >= 'a' && c <= 'z') || (c >= 'A' && c <= 'Z') || (c >= '0' && c <= '9')
                || c == '-' || c == '_';
            if !ok {
                assert(!spec_is_name_char(t@[i as int]));
                return Err(
                    ValidationError::InvalidPackageName(
                        String::from_str("invalid characters: ").concat(t),
                    ),
                );
            }
            i = i + 1;
        }
        Ok(PackageName(t.to_owned()))
    }

    pub fn as_str(&self) -> (r: &str)
        ensures
            r@ == self@,
    {
        self.0.as_str()
    }
}

/// A network port: 1 to 65535.
#[derive(Debug, Clone, Copy, PartialEq, Eq, Hash)]
pub struct Port(u16);

impl Port {
    pub closed spec fn spec_value(&self) -> u16 {
        self.0
    }

    /// Takes a port from a number. Port 0 is refused.
    pub fn new(port: u16) -> (r: Result<Port, ValidationError>)
        ensures
            match r {
                Ok(p) => port != 0 && p.spec_value() == port,
                Err(e) => port == 0 && e@ == ValidationErrorModel::InvalidPort(0),
            },
    {
        if port == 0 {
            Err(ValidationError::InvalidPort(port))
        } else {
            Ok(Port(port))
        }
    }

    pub fn value(&self) -> (r: u16)
        ensures
            r == self.spec_value(),
    {
        self.0
    }
}

/// The number that a string of decimal digits stands for.
pub open spec fn spec_decimal(digits: Seq<char>) -> nat
    decreases digits.len(),
{
    if digits.len() == 0 {
        0
    } else {
        spec_decimal(digits.drop_last()) * 10 + (digits.last() as u32 - '0' as u32) as nat
    }
}

pub open spec fn spec_all_digits(s: Seq<char>) -> bool {
    forall|i: int| 0 <= i < s.len() ==> spec_is_ascii_digit(#[trigger] s[i])
}

/// The number that a string stands for as a 16-bit unsigned integer: one or
/// more decimal digits, a plus sign before them or not, and a value of at
/// most 65535. Any other string stands for none.
pub open spec fn spec_parse_u16(s: Seq<char>) -> Option<u16> {
    let digits = if s.len() > 0 && s[0] == '+' {
        s.drop_first()
    } else {
        s
    };
    if digits.len() == 0 || !spec_all_digits(digits) || spec_decimal(digits) > 0xffff {
        None
    } else {
        Some(spec_decimal(digits) as u16)
    }
}

/// Reads a 16-bit unsigned integer from a string.
pub fn parse_u16(s: &str) -> (r: Option<u16>)
    ensures
        r == spec_parse_u16(s@),
{
    let n = s.unicode_len();
    let start: usize = if n > 0 && s.get_char(0) == '+' {
        1
    } else {
        0
    };
    let ghost digits = s@.subrange(start as int, n as int);
    proof {
        if start == 1 {
            assert(digits =~= s@.drop_first());
        } else {
            assert(digits =~= s@);
        }
    }
    if start == n {
        return None;
    }
    let mut acc: u32 = 0;
    let mut overflow = false;
    let mut i: usize = start;
    assert(digits.subrange(0, 0) =~= Seq::<char>::empty());
    while i < n
        invariant
            n == s@.len(),
            start <= i <= n,
            start < n,
            digits == s@.subrange(start as int, n as int),
            digits == if s@.len() > 0 && s@[0] == '+' {
                s@.drop_first()
            } else {
                s@
            },
            forall|j: int| 0 <= j < i - start ==> spec_is_ascii_digit(#[trigger] digits[j]),
            !overflow ==> acc == spec_decimal(digits.subrange(0, i - start)) && acc <= 0xffff,
            overflow ==> spec_decimal(digits.subrange(0, i - start)) > 0xffff,
        decreases n - i,
    {
        let c = s.get_char(i);
        if !(c >= '0' && c <= '9') {
            assert(!spec_is_ascii_digit(digits[i - start]));
            return None;
        }
        let ghost longer = digits.subrange(0, i - start + 1);
        proof {
            assert(longer.drop_last() =~= digits.subrange(0, i - start));
            assert(longer.last() == c);
        }
        if !overflow {
            let d = c as u32 - '0' as u32;
            let next = acc * 10 + d;
            if next > 0xffff {
                overflow = true;
            } else {
                acc = next;
            }
        }
        i = i + 1;
    }
    proof {
        assert(digits.subrange(0, n - start) =~= digits);
        assert(spec_all_digits(digits));
    }
    if overflow {
        None
    } else {
        Some(acc as u16)
    }
}

/// The position of the last colon of `s`, if it has one.
pub open spec fn spec_last_colon(s: Seq<char>) -> Option<int>
    decreases s.len(),
{
    if s.len() == 0 {
        None
    } else if s.last() == ':' {
        Some(s.len() - 1)
    } else {
        spec_last_colon(s.drop_last())
    }
}

/// A host and a port.
#[derive(Debug, Clone, PartialEq, Eq, Hash)]
pub struct SocketAddr {
    host: String,
    port: Port,
}

impl SocketAddr {
    pub closed spec fn spec_host(&self) -> Seq<char> {
        self.host@
    }

    pub closed spec fn spec_port(&self) -> u16 {
        self.port.spec_value()
    }

    /// What taking a socket address from `s` gives: the host before the
    /// last colon and the port behind it. A string without a colon is no
    /// address, and what stands behind the colon must be a port other than
    /// 0.
    pub open spec fn spec_parse(s: Seq<char>) -> Result<(Seq<char>, u16), ValidationErrorModel> {
        match spec_last_colon(s) {
            None => Err(ValidationErrorModel::InvalidPath("invalid socket address: "@ + s)),
            Some(i) => match spec_parse_u16(s.subrange(i + 1, s.len() as int)) {
                None => Err(ValidationErrorModel::InvalidPort(0)),
                Some(p) => if p == 0 {
                    Err(ValidationErrorModel::InvalidPort(0))
                } else {
                    Ok((s.subrange(0, i), p))
                },
            },
        }
    }

    /// Takes a socket address from a string such as `127.0.0.1:8080`.
    pub fn parse(s: &str) -> (r: Result<SocketAddr, ValidationError>)
        ensures
            match r {
                Ok(a) => Self::spec_parse(s@) == Ok::<(Seq<char>, u16), ValidationErrorModel>(
                    (a.spec_host(), a.spec_port()),
                ),
                Err(e) => Self::spec_parse(s@) == Err::<(Seq<char>, u16), ValidationErrorModel>(
                    e@,
                ),
            },
    {
        let n = s.unicode_len();
        let mut i: usize = n;
        assert(s@.subrange(0, n as int) =~= s@);
        while i > 0 && s.get_char(i - 1) != ':'
            invariant
                n == s@.len(),
                i <= n,
                spec_last_colon(s@) == spec_last_colon(s@.subrange(0, i as int)),
            decreases i,
        {
            assert(s@.subrange(0, i as int).drop_last() =~= s@.subrange(0, i - 1));
            i = i - 1;
        }
        if i == 0 {
            return Err(
                ValidationError::InvalidPath(
                    String::from_str("invalid socket address: ").concat(s),
                ),
            );
        }
        assert(spec_last_colon(s@) == Some((i - 1) as int));
        let port = match parse_u16(s.substring_char(i, n)) {
            Some(p) => p,
            None => {
                return Err(ValidationError::InvalidPort(0));
            },
        };
        let port = match Port::new(port) {
            Ok(p) => p,
            Err(e) => {
                return Err(e);
            },
        };
        Ok(SocketAddr { host: s.substring_char(0, i - 1).to_owned(), port })
    }

    pub fn host(&self) -> (r: &str)
        ensures
            r@ == self.spec_host(),
    {
        self.host.as_str()
    }

    pub fn port(&self) -> (r: u16)
        ensures
            r == self.spec_port(),
    {
        self.port.value()
    }
}

/// A string that holds more than white space.
#[derive(Debug, Clone, PartialEq, Eq, Hash)]
pub struct NonEmptyString(String);

impl View for NonEmptyString {
    type V = Seq<char>;

    closed spec fn view(&self) -> Seq<char> {
        self.0@
    }
}

impl NonEmptyString {
    /// Takes a string that must not be empty once it is trimmed. `field`
    /// names the value in the error.
    pub fn new(s: &str, field: &str) -> (r: Result<NonEmptyString, ValidationError>)
        ensures
            match r {
                Ok(v) => v@ == spec_trim(s@) && v@.len() > 0,
                Err(e) => spec_trim(s@).len() == 0 && e@ == (ValidationErrorModel::EmptyValue {
                    field: field@,
                }),
            },
    {
        let t = trim(s);
        if t.unicode_len() == 0 {
            Err(ValidationError::EmptyValue { field: field.to_owned() })
        } else {
            Ok(NonEmptyString(t.to_owned()))
        }
    }

    pub fn as_str(&self) -> (r: &str)
        ensures
            r@ == self@,
    {
        self.0.as_str()
    }

    pub fn into_inner(self) -> (r: String)
        ensures
            r@ == self@,
    {
        self.0
    }
}

/// `std::path::PathBuf`: a path that owns its text.
#[verifier::external_type_specification]
#[verifier::external_body]
pub struct ExPathBuf(std::path::PathBuf);

/// `std::path::Path`: a path that borrows its text.
#[verifier::external_type_specification]
#[verifier::external_body]
pub struct ExPath(std::path::Path);

/// `PathBuf::clone` of std: a copy of the path.
pub assume_specification[ <std::path::PathBuf as Clone>::clone ](
    path: &std::path::PathBuf,
) -> (r: std::path::PathBuf)
    ensures
        r == *path,
;

/// `Path::is_absolute` of std: whether the path is absolute on this
/// platform. What counts as absolute differs between platforms, so nothing is
/// said of the answer.
#[verifier::external_body]
fn path_is_absolute(path: &std::path::PathBuf) -> (r: bool) {
    path.is_absolute()
}

/// `Path::display` of std, written out: the text of the path for a message.
/// Nothing is said of the text.
#[verifier::external_body]
fn path_text(path: &std::path::PathBuf) -> (r: String) {
    format!("{}", path.display())
}

/// `Path::join` of std: the path with `more` joined on. How the two are
/// joined differs between platforms, so nothing is said of the result.
#[verifier::external_body]
fn path_joined(path: &std::path::PathBuf, more: &std::path::Path) -> (r: std::path::PathBuf) {
    path.join(more)
}

/// A path that was absolute when it was checked. The path is held as it was
/// given and is handed back as it is held: nothing in it is rewritten.
#[derive(Debug, Clone, PartialEq, Eq, Hash)]
pub struct AbsolutePath(std::path::PathBuf);

impl AbsolutePath {
    /// The path that is held.
    pub closed spec fn spec_inner(&self) -> std::path::PathBuf {
        self.0
    }

    /// Takes a path of which it is known whether it is absolute: it is kept
    /// where it is, and refused with `message` where it is not.
    pub fn checked(path: std::path::PathBuf, absolute: bool, message: String) -> (r: Result<
        Self,
        ValidationError,
    >)
        ensures
            match r {
                Ok(p) => absolute && p.spec_inner() == path,
                Err(e) => !absolute && e@ == ValidationErrorModel::InvalidPath(
                    "path must be absolute: "@ + message@,
                ),
            },
    {
        if absolute {
            Ok(AbsolutePath(path))
        } else {
            Err(
                ValidationError::InvalidPath(
                    String::from_str("path must be absolute: ").concat(message.as_str()),
                ),
            )
        }
    }

    /// Takes a path that must be absolute on this platform. A path that is
    /// kept is kept unchanged; one that is refused is an invalid path.
    pub fn new(path: std::path::PathBuf) -> (r: Result<Self, ValidationError>)
        ensures
            match r {
                Ok(p) => p.spec_inner() == path,
                Err(e) => e@ is InvalidPath,
            },
    {
        let absolute = path_is_absolute(&path);
        let message = path_text(&path);
        AbsolutePath::checked(path, absolute, message)
    }

    /// The path that is held, borrowed. It is lent as the `PathBuf` itself,
    /// which derefs to `&Path` wherever one is asked for, so that the
    /// contract can name it: the value lent is the value held.
    /// `self` keeps the path and is not changed by the loan; to take the
    /// path out for good, use `into_inner`.
    pub fn as_path(&self) -> (r: &std::path::PathBuf)
        ensures
            *r == self.spec_inner(),
    {
        &self.0
    }

    /// The path with `path` joined on, as `Path::join` of std joins the two
    /// on this platform: where `path` is absolute it takes the place of the
    /// path that is held. The result is not checked again, and nothing is
    /// said of it, since how two paths are joined differs between platforms.
    /// `self` is left as it was.
    pub fn join(&self, path: &std::path::Path) -> (r: Self) {
        AbsolutePath(path_joined(&self.0, path))
    }

    pub fn into_inner(self) -> (r: std::path::PathBuf)
        ensures
            r == self.spec_inner(),
    {
        self.0
    }
}

} // verus!
