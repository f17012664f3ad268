use vstd::prelude::*;
use vstd::string::StrSliceExecFns;

verus! {

/// Parameters of one line of a font descriptor, as `key=value` pairs in the
/// order they appear; a later pair for a key overrides an earlier one.
pub type Parameters = Vec<(String, String)>;

/// Why a font descriptor line could not be read.
#[derive(Copy, Clone, Debug, PartialEq, Eq, Structural)]
pub enum FontError {
    /// A parameter the line needs is absent.
    MissingParameter,
    /// A parameter's value is not a decimal `i32`.
    InvalidParameter,
    /// A line starts with a word that names no known kind of line.
    UnknownLineType,
}

/// Characters with the Unicode `White_Space` property.
pub open spec fn is_white_space(c: char) -> bool {
    let u = c as u32;
    (0x9 <= u <= 0xD) || u == 0x20 || u == 0x85 || u == 0xA0 || u == 0x1680 || (0x2000 <= u <= 0x200A) || u == 0x2028
        || u == 0x2029 || u == 0x202F || u == 0x205F || u == 0x3000
}

pub open spec fn trim_start_of(s: Seq<char>) -> Seq<char>
    decreases s.len(),
{
    if s.len() > 0 && is_white_space(s[0]) {
        trim_start_of(s.drop_first())
    } else {
        s
    }
}

pub open spec fn trim_end_of(s: Seq<char>) -> Seq<char>
    decreases s.len(),
{
    if s.len() > 0 && is_white_space(s.last()) {
        trim_end_of(s.drop_last())
    } else {
        s
    }
}

/// The text `s` with leading and trailing white space removed.
pub open spec fn trim_of(s: Seq<char>) -> Seq<char> {
    trim_end_of(trim_start_of(s))
}

pub open spec fn is_decimal_digit(c: char) -> bool {
    '0' as u32 <= c as u32 <= '9' as u32
}

/// Value of a run of decimal digits.
pub open spec fn digits_value(s: Seq<char>) -> int
    decreases s.len(),
{
    if s.len() == 0 {
        0
    } else {
        10 * digits_value(s.drop_last()) + (s.last() as u32 - '0' as u32)
    }
}

/// The `i32` that the text `s` spells in decimal, if it spells one: an
/// optional `+` or `-`, then one or more decimal digits, within range.
pub open spec fn i32_of_decimal(s: Seq<char>) -> Option<i32> {
    let signed = s.len() > 0 && (s[0] == '-' || s[0] == '+');
    let digits = if signed {
        s.drop_first()
    } else {
        s
    };
    let v = if s.len() > 0 && s[0] == '-' {
        -digits_value(digits)
    } else {
        digits_value(digits)
    };
    if digits.len() > 0 && (forall|i: int| 0 <= i < digits.len() ==> is_decimal_digit(#[trigger] digits[i]))
        && i32::MIN <= v <= i32::MAX {
        Some(v as i32)
    } else {
        None
    }
}

/// Relies on `str::trim`: drops leading and trailing `White_Space`
/// characters.
#[verifier::external_body]
fn trim_text(s: &str) -> (r: &str)
    ensures
        r@ == trim_of(s@),
{
    s.trim()
}

/// Relies on `str::parse::<i32>`: an optional sign and decimal digits, with
/// no other characters, whose value fits `i32`.
#[verifier::external_body]
fn parse_i32(s: &str) -> (r: Option<i32>)
    ensures
        r == i32_of_decimal(s@),
{
    s.parse::<i32>().ok()
}

/// Value of the last pair among the first `n` of `p` whose key is `key`.
pub open spec fn lookup_upto(p: Seq<(String, String)>, key: Seq<char>, n: int) -> Option<Seq<char>>
    decreases n,
{
    if n <= 0 {
        None
    } else if p[n - 1].0@ == key {
        Some(p[n - 1].1@)
    } else {
        lookup_upto(p, key, n - 1)
    }
}

pub open spec fn lookup(p: Seq<(String, String)>, key: Seq<char>) -> Option<Seq<char>> {
    lookup_upto(p, key, p.len() as int)
}

/// The integer parameter `key` of `p`.
pub open spec fn param(p: Seq<(String, String)>, key: Seq<char>) -> Result<i32, FontError> {
    match lookup(p, key) {
        None => Err(FontError::MissingParameter),
        Some(v) => match i32_of_decimal(trim_of(v)) {
            Some(n) => Ok(n),
            None => Err(FontError::InvalidParameter),
        },
    }
}

/// Reads the integer parameter `key`: its value, trimmed, as a decimal `i32`.
pub fn init_parameter(parameters: &Parameters, key: &str) -> (r: Result<i32, FontError>)
    ensures
        r == param(parameters@, key@),
{
    let wanted = key.to_owned();
    let mut i = parameters.len();
    while i > 0
        invariant
            i <= parameters@.len(),
            wanted@ == key@,
            lookup(parameters@, key@) == lookup_upto(parameters@, key@, i as int),
        decreases i,
    {
        if parameters[i - 1].0 == wanted {
            let value = trim_text(parameters[i - 1].1.as_str());
            return match parse_i32(value) {
                Some(n) => Ok(n),
                None => Err(FontError::InvalidParameter),
            };
        }
        i = i - 1;
    }
    Err(FontError::MissingParameter)
}

/// Placement of one character in a font's texture.
#[derive(Copy, Clone, Debug, PartialEq, Eq, Structural)]
pub struct Glyph {
    pub id: u32,
    pub x: i32,
    pub y: i32,
    pub width: i32,
    pub height: i32,
    pub x_offset: i32,
    pub y_offset: i32,
    pub x_advance: i32,
}

/// The glyph a `char` line with parameters `p` describes, or the error of the
/// first parameter that fails, in the order x, y, width, height, xoffset,
/// yoffset, xadvance, id.
pub open spec fn glyph_of(p: Seq<(String, String)>) -> Result<Glyph, FontError> {
    if param(p, "x"@) is Err {
        Err(param(p, "x"@)->Err_0)
    } else if param(p, "y"@) is Err {
        Err(param(p, "y"@)->Err_0)
    } else if param(p, "width"@) is Err {
        Err(param(p, "width"@)->Err_0)
    } else if param(p, "height"@) is Err {
        Err(param(p, "height"@)->Err_0)
    } else if param(p, "xoffset"@) is Err {
        Err(param(p, "xoffset"@)->Err_0)
    } else if param(p, "yoffset"@) is Err {
        Err(param(p, "yoffset"@)->Err_0)
    } else if param(p, "xadvance"@) is Err {
        Err(param(p, "xadvance"@)->Err_0)
    } else if param(p, "id"@) is Err {
        Err(param(p, "id"@)->Err_0)
    } else {
        Ok(
            Glyph {
                id: param(p, "id"@)->Ok_0 as u32,
                x: param(p, "x"@)->Ok_0,
                y: param(p, "y"@)->Ok_0,
                width: param(p, "width"@)->Ok_0,
                height: param(p, "height"@)->Ok_0,
                x_offset: param(p, "xoffset"@)->Ok_0,
                y_offset: param(p, "yoffset"@)->Ok_0,
                x_advance: param(p, "xadvance"@)->Ok_0,
            },
        )
    }
}

impl Glyph {
    pub fn new(parameters: &Parameters) -> (r: Result<Self, FontError>)
        ensures
            r == glyph_of(parameters@),
    {
        let x = match init_parameter(parameters, "x") {
            Ok(v) => v,
            Err(e) => return Err(e),
        };
        let y = match init_parameter(parameters, "y") {
            Ok(v) => v,
            Err(e) => return Err(e),
        };
        let width = match init_parameter(parameters, "width") {
            Ok(v) => v,
            Err(e) => return Err(e),
        };
        let height = match init_parameter(parameters, "height") {
            Ok(v) => v,
            Err(e) => return Err(e),
        };
        let x_offset = match init_parameter(parameters, "xoffset") {
            Ok(v) => v,
            Err(e) => return Err(e),
        };
        let y_offset = match init_parameter(parameters, "yoffset") {
            Ok(v) => v,
            Err(e) => return Err(e),
        };
        let x_advance = match init_parameter(parameters, "xadvance") {
            Ok(v) => v,
            Err(e) => return Err(e),
        };
        let id = match init_parameter(parameters, "id") {
            Ok(v) => v as u32,
            Err(e) => return Err(e),
        };
        Ok(Glyph { id, x, y, width, height, x_offset, y_offset, x_advance })
    }
}

/// Measures shared by all glyphs of a font.
#[derive(Copy, Clone, Debug, PartialEq, Eq, Structural)]
pub struct CommonParameters {
    pub line_height: i32,
    pub texture_width: i32,
    pub texture_height: i32,
}

/// The measures a `common` line with parameters `p` gives, or the error of
/// the first parameter that fails, in the order lineHeight, scaleW, scaleH.
pub open spec fn common_of(p: Seq<(String, String)>) -> Result<CommonParameters, FontError> {
    if param(p, "lineHeight"@) is Err {
        Err(param(p, "lineHeight"@)->Err_0)
    } else if param(p, "scaleW"@) is Err {
        Err(param(p, "scaleW"@)->Err_0)
    } else if param(p, "scaleH"@) is Err {
        Err(param(p, "scaleH"@)->Err_0)
    } else {
        Ok(
            CommonParameters {
                line_height: param(p, "lineHeight"@)->Ok_0,
                texture_width: param(p, "scaleW"@)->Ok_0,
                texture_height: param(p, "scaleH"@)->Ok_0,
            },
        )
    }
}

impl CommonParameters {
    pub fn new(parameters: &Parameters) -> (r: Result<Self, FontError>)
        ensures
            r == common_of(parameters@),
    {
        let line_height = match init_parameter(parameters, "lineHeight") {
            Ok(v) => v,
            Err(e) => return Err(e),
        };
        let texture_width = match init_parameter(parameters, "scaleW") {
            Ok(v) => v,
            Err(e) => return Err(e),
        };
        let texture_height = match init_parameter(parameters, "scaleH") {
            Ok(v) => v,
            Err(e) => return Err(e),
        };
        Ok(CommonParameters { line_height, texture_width, texture_height })
    }
}

/// The characters of `s`, in order.
fn chars_of(s: &str) -> (r: Vec<char>)
    ensures
        r@ == s@,
{
    let n = s.unicode_len();
    let mut chars: Vec<char> = Vec::new();
    let mut i: usize = 0;
    while i < n
        invariant
            n == s@.len(),
            i <= n,
            chars@ == s@.subrange(0, i as int),
        decreases n - i,
    {
        chars.push(s.get_char(i));
        i += 1;
        assert(chars@ =~= s@.subrange(0, i as int));
    }
    assert(chars@ =~= s@);
    chars
}

/// Relies on `String: FromIterator<char>`: the characters, in order, as a
/// `String`.
#[verifier::external_body]
fn string_of(chars: &Vec<char>) -> (r: String)
    ensures
        r@ == chars@,
{
    chars.iter().collect()
}

/// A line of a font descriptor: its kind and its parameters.
#[derive(Clone, Debug, PartialEq, Eq)]
pub enum LineType {
    Info(Parameters),
    Common(Parameters),
    Page(Parameters),
    Chars(Parameters),
    Char(Parameters),
}

/// Where the line reader stands: reading the line's kind, a key, or the value
/// of a key.
enum ParsePhase {
    Type,
    Key,
    Value(Vec<char>),
}

/// State of the line reader: phase, current token, kind word once read,
/// whether the next character is escaped, whether a quoted value is open,
/// and the parameters so far.
pub type ParseModel = (int, Seq<char>, Seq<char>, Seq<char>, bool, bool, Seq<(Seq<char>, Seq<char>)>);

/// Reader state after character `c`. Phase 0 reads the kind word up to the
/// first space; phase 1 a key up to `=`; phase 2 the value of key `st.1`, up
/// to a space, or up to the closing quote when the value opens with `"`; a
/// backslash makes the next character literal. A value is stored only when
/// its terminator is read.
pub open spec fn parse_step(st: ParseModel, c: char) -> ParseModel {
    let (phase, key, token, descriptor, escaped, quoted, params) = st;
    if phase == 0 {
        if c == ' ' {
            (1, key, Seq::empty(), token, escaped, quoted, params)
        } else {
            (0, key, token.push(c), descriptor, escaped, quoted, params)
        }
    } else if phase == 1 {
        if c == '=' {
            (2, token, Seq::empty(), descriptor, escaped, quoted, params)
        } else if c != ' ' {
            (1, key, token.push(c), descriptor, escaped, quoted, params)
        } else {
            st
        }
    } else {
        if token.len() == 0 && !quoted && c == '"' {
            (2, key, token, descriptor, escaped, true, params)
        } else if !escaped && c == '\\' {
            (2, key, token, descriptor, true, quoted, params)
        } else if !escaped && ((quoted && c == '"') || (!quoted && c == ' ')) {
            (1, key, Seq::empty(), descriptor, escaped, false, params.push((key, token)))
        } else {
            (2, key, token.push(c), descriptor, false, quoted, params)
        }
    }
}

/// Reader state after the first `n` characters of `chars`.
pub open spec fn parse_upto(chars: Seq<char>, n: nat) -> ParseModel
    decreases n,
{
    if n == 0 {
        (0, Seq::empty(), Seq::empty(), Seq::empty(), false, false, Seq::empty())
    } else {
        parse_step(parse_upto(chars, (n - 1) as nat), chars[n - 1])
    }
}

pub open spec fn params_view(p: Seq<(String, String)>) -> Seq<(Seq<char>, Seq<char>)> {
    p.map_values(|e: (String, String)| (e.0@, e.1@))
}

/// Whether `d` names a kind of line.
pub open spec fn is_line_kind(d: Seq<char>) -> bool {
    d == "info"@ || d == "common"@ || d == "page"@ || d == "chars"@ || d == "char"@
}

impl LineType {
    /// The word that names this kind of line.
    pub open spec fn kind_word(self) -> Seq<char> {
        match self {
            LineType::Info(_) => "info"@,
            LineType::Common(_) => "common"@,
            LineType::Page(_) => "page"@,
            LineType::Chars(_) => "chars"@,
            LineType::Char(_) => "char"@,
        }
    }

    pub open spec fn params(self) -> Parameters {
        match self {
            LineType::Info(p) => p,
            LineType::Common(p) => p,
            LineType::Page(p) => p,
            LineType::Chars(p) => p,
            LineType::Char(p) => p,
        }
    }
}

/// Reads one line of a font descriptor: a kind word, then `key=value` pairs
/// separated by spaces, values optionally quoted.
pub fn parse_line(line: &str) -> (r: Result<LineType, FontError>)
    ensures
        ({
            let chars = trim_of(line@);
            let st = parse_upto(chars, chars.len());
            &&& r is Ok <==> is_line_kind(st.3)
            &&& r matches Ok(t) ==> t.kind_word() == st.3 && params_view(t.params()@) == st.6
            &&& r matches Err(e) ==> e == FontError::UnknownLineType
        }),
{
    let chars = chars_of(trim_text(line));
    let ghost text = chars@;
    let mut phase = ParsePhase::Type;
    let mut token: Vec<char> = Vec::new();
    let mut line_type_descriptor: Vec<char> = Vec::new();
    let mut escaped = false;
    let mut quoted = false;
    let mut parameters: Parameters = Vec::new();
    let mut i: usize = 0;
    while i < chars.len()
        invariant
            text == chars@,
            i <= chars@.len(),
            ({
                let st = parse_upto(text, i as nat);
                &&& st.0 == match phase {
                    ParsePhase::Type => 0int,
                    ParsePhase::Key => 1int,
                    ParsePhase::Value(_) => 2int,
                }
                &&& (phase matches ParsePhase::Value(k) ==> st.1 == k@)
                &&& st.2 == token@
                &&& st.3 == line_type_descriptor@
                &&& st.4 == escaped
                &&& st.5 == quoted
                &&& st.6 == params_view(parameters@)
            }),
        decreases chars@.len() - i,
    {
        let c = chars[i];
        let ghost before = parse_upto(text, i as nat);
        let ghost pv = parameters@;
        match phase {
            ParsePhase::Type => {
                if c == ' ' {
                    line_type_descriptor = token;
                    token = Vec::new();
                    phase = ParsePhase::Key;
                } else {
                    token.push(c);
                }
            },
            ParsePhase::Key => {
                if c == '=' {
                    phase = ParsePhase::Value(token);
                    token = Vec::new();
                } else if c != ' ' {
                    token.push(c);
                }
            },
            ParsePhase::Value(key) => {
                if token.len() == 0 && !quoted && c == '"' {
                    quoted = true;
                    phase = ParsePhase::Value(key);
                } else if !escaped && c == '\\' {
                    escaped = true;
                    phase = ParsePhase::Value(key);
                } else if !escaped && ((quoted && c == '"') || (!quoted && c == ' ')) {
                    let entry = (string_of(&key), string_of(&token));
                    parameters.push(entry);
                    assert(params_view(parameters@) =~= params_view(pv).push((key@, token@)));
                    token = Vec::new();
                    quoted = false;
                    phase = ParsePhase::Key;
                } else {
                    token.push(c);
                    escaped = false;
                    phase = ParsePhase::Value(key);
                }
            },
        }
        i += 1;
    }
    let descriptor = string_of(&line_type_descriptor);
    if descriptor == "info".to_owned() {
        Ok(LineType::Info(parameters))
    } else if descriptor == "common".to_owned() {
        Ok(LineType::Common(parameters))
    } else if descriptor == "page".to_owned() {
        Ok(LineType::Page(parameters))
    } else if descriptor == "chars".to_owned() {
        Ok(LineType::Chars(parameters))
    } else if descriptor == "char".to_owned() {
        Ok(LineType::Char(parameters))
    } else {
        Err(FontError::UnknownLineType)
    }
}

} // verus!