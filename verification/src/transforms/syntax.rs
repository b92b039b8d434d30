//! What the text of a program in the Vector Remap Language (VRL) tells of it.
use vstd::prelude::*;

use crate::text::{from_chars, same_text, to_chars};

verus! {

/// What a character of a program belongs to.
#[derive(Debug, Clone, Copy, PartialEq, Eq, Structural)]
pub enum Part {
    /// The program proper. The marks that open a text or a comment are of it.
    Code,
    /// A text in double quotes.
    Text,
    /// The character behind a backslash in such a text.
    TextEscape,
    /// A text, a pattern or a time in single quotes.
    Quote,
    /// The character behind a backslash in single quotes.
    QuoteEscape,
    /// A comment, up to the end of its line.
    Comment,
}

/// What the next character belongs to.
pub open spec fn next_part(part: Part, c: char) -> Part {
    match part {
        Part::Code => if c == '"' {
            Part::Text
        } else if c == '\'' {
            Part::Quote
        } else if c == '#' {
            Part::Comment
        } else {
            Part::Code
        },
        Part::Text => if c == '\\' {
            Part::TextEscape
        } else if c == '"' {
            Part::Code
        } else {
            Part::Text
        },
        Part::TextEscape => Part::Text,
        Part::Quote => if c == '\\' {
            Part::QuoteEscape
        } else if c == '\'' {
            Part::Code
        } else {
            Part::Quote
        },
        Part::QuoteEscape => Part::Quote,
        Part::Comment => if c == '\n' {
            Part::Code
        } else {
            Part::Comment
        },
    }
}

/// What the character at a place of a program belongs to.
pub open spec fn part_at(source: Seq<char>, i: int) -> Part
    decreases i,
{
    if i <= 0 {
        Part::Code
    } else {
        next_part(part_at(source, i - 1), source[i - 1])
    }
}

/// Whether a character may stand in the name of a function.
pub open spec fn is_name_char(c: char) -> bool {
    ||| 'a' <= c <= 'z'
    ||| 'A' <= c <= 'Z'
    ||| '0' <= c <= '9'
    ||| c == '_'
    ||| c == '@'
}

/// Whether a character sets others apart and means nothing else.
pub open spec fn is_blank(c: char) -> bool {
    c == ' ' || c == '\t' || c == '\n' || c == '\r'
}

/// Whether a character may stand in a whole number.
pub open spec fn is_digit(c: char) -> bool {
    '0' <= c <= '9' || c == '_'
}

/// The first place from here on that is not blank.
pub open spec fn after_blanks(source: Seq<char>, i: int) -> int
    decreases source.len() - i,
{
    if 0 <= i < source.len() && is_blank(source[i]) {
        after_blanks(source, i + 1)
    } else {
        i
    }
}

/// The first place from here on that holds no digit.
pub open spec fn after_digits(source: Seq<char>, i: int) -> int
    decreases source.len() - i,
{
    if 0 <= i < source.len() && is_digit(source[i]) {
        after_digits(source, i + 1)
    } else {
        i
    }
}

/// Where the name starts that ends at a place.
pub open spec fn name_start(source: Seq<char>, end: int) -> int
    decreases end,
{
    if 0 < end <= source.len() && is_name_char(source[end - 1]) {
        name_start(source, end - 1)
    } else {
        end
    }
}

/// The name that ends at a place: as many characters before the place as may
/// stand in a name.
pub open spec fn name_before(source: Seq<char>, end: int) -> Seq<char> {
    source.subrange(name_start(source, end), end)
}

/// How many commas stand between here and the bracket that closes so many open
/// ones, outside of further brackets.
pub open spec fn commas(source: Seq<char>, i: int, open: int) -> nat
    decreases source.len() - i,
{
    if i < 0 || i >= source.len() || open <= 0 {
        0
    } else if part_at(source, i) != Part::Code {
        commas(source, i + 1, open)
    } else if source[i] == '(' || source[i] == '[' || source[i] == '{' {
        commas(source, i + 1, open + 1)
    } else if source[i] == ')' || source[i] == ']' || source[i] == '}' {
        commas(source, i + 1, open - 1)
    } else if source[i] == ',' && open == 1 {
        1 + commas(source, i + 1, open)
    } else {
        commas(source, i + 1, open)
    }
}

/// Where the arguments of a call start, by the place behind its name. The
/// bracket stands there, or behind an exclamation mark.
pub open spec fn arguments_start(source: Seq<char>, i: int) -> int {
    if source[i] == '!' {
        after_blanks(source, i + 1) + 1
    } else {
        i + 1
    }
}

/// How many commas there are between the arguments of a call, by the place
/// behind its name.
pub open spec fn argument_commas(source: Seq<char>, i: int) -> nat {
    commas(source, arguments_start(source, i), 1)
}

/// Whether a function of `vrl::stdlib`, called with so many commas between its
/// arguments, may come to no end.
///
/// These are the functions that panic or go on for ever on some arguments, and
/// those that rest on further crates of which the same is not ruled out. Called
/// with its two first arguments alone, `starts_with` minds case and `find`
/// searches from the start: then both come to an end.
pub open spec fn may_not_end(name: Seq<char>, commas: nat) -> bool {
    ||| name == "abs"@
    ||| name == "camelcase"@
    ||| name == "community_id"@
    ||| name == "decode_charset"@
    ||| name == "decode_gzip"@
    ||| name == "decode_lz4"@
    ||| name == "decode_mime_q"@
    ||| name == "decode_punycode"@
    ||| name == "decode_snappy"@
    ||| name == "decode_zlib"@
    ||| name == "decode_zstd"@
    ||| name == "encode_charset"@
    ||| name == "encode_csv"@
    ||| name == "encode_gzip"@
    ||| name == "encode_lz4"@
    ||| name == "encode_punycode"@
    ||| name == "encode_snappy"@
    ||| name == "encode_zlib"@
    ||| name == "encode_zstd"@
    ||| name == "filter"@
    ||| name == "format_int"@
    ||| name == "format_number"@
    ||| name == "format_timestamp"@
    ||| name == "ip_subnet"@
    ||| name == "kebabcase"@
    ||| name == "match_any"@
    ||| name == "match_datadog_query"@
    ||| name == "parse_apache_log"@
    ||| name == "parse_aws_alb_log"@
    ||| name == "parse_aws_cloudwatch_log_subscription_message"@
    ||| name == "parse_aws_vpc_flow_log"@
    ||| name == "parse_bytes"@
    ||| name == "parse_cbor"@
    ||| name == "parse_cef"@
    ||| name == "parse_common_log"@
    ||| name == "parse_csv"@
    ||| name == "parse_duration"@
    ||| name == "parse_grok"@
    ||| name == "parse_groks"@
    ||| name == "parse_influxdb"@
    ||| name == "parse_linux_authorization"@
    ||| name == "parse_nginx_log"@
    ||| name == "parse_ruby_hash"@
    ||| name == "parse_syslog"@
    ||| name == "parse_timestamp"@
    ||| name == "parse_url"@
    ||| name == "parse_user_agent"@
    ||| name == "parse_xml"@
    ||| name == "parse_yaml"@
    ||| name == "pascalcase"@
    ||| name == "random_bytes"@
    ||| name == "random_float"@
    ||| name == "random_int"@
    ||| name == "screamingsnakecase"@
    ||| name == "set"@
    ||| name == "snakecase"@
    ||| name == "strip_ansi_escape_codes"@
    ||| name == "type_def"@
    ||| name == "unflatten"@
    ||| name == "unnest"@
    ||| name == "uuid_from_friendly_id"@
    ||| name == "uuid_v7"@
    ||| name == "values"@
    ||| name == "find"@ && commas > 1
    ||| name == "starts_with"@ && commas > 1
}

/// Whether the result of a function of `vrl::stdlib`, called with so many commas
/// between its arguments, goes by the arguments and the size of a machine word:
/// not by the time, by chance, by the paths of the machine or by the order of a
/// hash map, and not by how the machine rounds logarithms and powers.
///
/// With a depth given, `parse_json` walks a hash map.
pub open spec fn goes_by_arguments(name: Seq<char>, commas: nat) -> bool {
    ||| name == "append"@
    ||| name == "array"@
    ||| name == "assert"@
    ||| name == "assert_eq"@
    ||| name == "bool"@
    ||| name == "chunks"@
    ||| name == "compact"@
    ||| name == "contains"@
    ||| name == "contains_all"@
    ||| name == "decode_base16"@
    ||| name == "decode_base64"@
    ||| name == "decode_percent"@
    ||| name == "del"@
    ||| name == "downcase"@
    ||| name == "encode_base16"@
    ||| name == "encode_base64"@
    ||| name == "encode_json"@
    ||| name == "encode_key_value"@
    ||| name == "encode_logfmt"@
    ||| name == "encode_percent"@
    ||| name == "ends_with"@
    ||| name == "exists"@
    ||| name == "find"@
    ||| name == "flatten"@
    ||| name == "float"@
    ||| name == "for_each"@
    ||| name == "from_entries"@
    ||| name == "from_unix_timestamp"@
    ||| name == "get"@
    ||| name == "includes"@
    ||| name == "int"@
    ||| name == "ip_aton"@
    ||| name == "ip_cidr_contains"@
    ||| name == "ip_ntoa"@
    ||| name == "ip_ntop"@
    ||| name == "ip_pton"@
    ||| name == "ip_to_ipv6"@
    ||| name == "ipv6_to_ipv4"@
    ||| name == "is_array"@
    ||| name == "is_boolean"@
    ||| name == "is_empty"@
    ||| name == "is_float"@
    ||| name == "is_integer"@
    ||| name == "is_ipv4"@
    ||| name == "is_ipv6"@
    ||| name == "is_json"@
    ||| name == "is_null"@
    ||| name == "is_nullish"@
    ||| name == "is_object"@
    ||| name == "is_regex"@
    ||| name == "is_string"@
    ||| name == "is_timestamp"@
    ||| name == "join"@
    ||| name == "keys"@
    ||| name == "length"@
    ||| name == "log"@
    ||| name == "map_keys"@
    ||| name == "map_values"@
    ||| name == "match"@
    ||| name == "match_array"@
    ||| name == "merge"@
    ||| name == "mod"@
    ||| name == "object"@
    ||| name == "object_from_array"@
    ||| name == "parse_float"@
    ||| name == "parse_glog"@
    ||| name == "parse_int"@
    ||| name == "parse_key_value"@
    ||| name == "parse_logfmt"@
    ||| name == "parse_query_string"@
    ||| name == "parse_regex"@
    ||| name == "parse_regex_all"@
    ||| name == "parse_tokens"@
    ||| name == "pop"@
    ||| name == "push"@
    ||| name == "range"@
    ||| name == "redact"@
    ||| name == "remove"@
    ||| name == "replace"@
    ||| name == "replace_with"@
    ||| name == "sieve"@
    ||| name == "slice"@
    ||| name == "split"@
    ||| name == "starts_with"@
    ||| name == "string"@
    ||| name == "strip_whitespace"@
    ||| name == "strlen"@
    ||| name == "tag_types_externally"@
    ||| name == "tally"@
    ||| name == "tally_value"@
    ||| name == "timestamp"@
    ||| name == "to_bool"@
    ||| name == "to_entries"@
    ||| name == "to_float"@
    ||| name == "to_int"@
    ||| name == "to_regex"@
    ||| name == "to_string"@
    ||| name == "to_syslog_facility"@
    ||| name == "to_syslog_facility_code"@
    ||| name == "to_syslog_level"@
    ||| name == "to_syslog_severity"@
    ||| name == "to_unix_timestamp"@
    ||| name == "truncate"@
    ||| name == "upcase"@
    ||| name == "zip"@
    ||| name == "parse_json"@ && commas == 0
}

/// Whether a quotation mark opens a text, a pattern or a time: whether the
/// letter that says which stands before it, on its own.
pub open spec fn opens_quote(source: Seq<char>, i: int) -> bool {
    &&& i > 0
    &&& source[i - 1] == 's' || source[i - 1] == 'r' || source[i - 1] == 't'
    &&& i == 1 || !is_name_char(source[i - 2])
}

/// How many digits stand together at a place.
pub open spec fn digits_at(source: Seq<char>, i: int) -> int {
    after_digits(source, i) - i
}

/// Whether a factor behind a place is written out as a number below a million.
pub open spec fn small_factor(source: Seq<char>, i: int) -> bool {
    let start = after_blanks(source, i + 1);
    let end = after_digits(source, start);
    &&& 0 < end - start <= 6
    &&& end == source.len() || !is_name_char(source[end])
}

/// Whether a bracket opens an index: whether what it is to be looked up in
/// stands right before it.
pub open spec fn opens_index(source: Seq<char>, i: int) -> bool {
    &&& i > 0
    &&& {
        ||| is_name_char(source[i - 1])
        ||| source[i - 1] == ']'
        ||| source[i - 1] == '}'
        ||| source[i - 1] == ')'
        ||| source[i - 1] == '"'
        ||| source[i - 1] == '.'
        ||| source[i - 1] == '%'
    }
}

/// Whether the number behind a bracket has at most six digits.
pub open spec fn small_index(source: Seq<char>, i: int) -> bool {
    let start = after_blanks(source, i + 1);
    if 0 <= start < source.len() && source[start] == '-' {
        digits_at(source, start + 1) <= 6
    } else {
        digits_at(source, start) <= 6
    }
}

/// Whether what stands at a place of the program proper lets it come to an end.
pub open spec fn lets_end(source: Seq<char>, i: int) -> bool {
    let c = source[i];
    &&& ' ' <= c <= '~' || is_blank(c)
    &&& c == '\'' ==> opens_quote(source, i)
    &&& c == '(' || c == '!' ==> !may_not_end(name_before(source, i), argument_commas(source, i))
    &&& c == '*' ==> small_factor(source, i)
    &&& c == '[' && opens_index(source, i) ==> small_index(source, i)
}

/// Whether compiling a program, and running it, always comes to an end without
/// a panic, as long as the memory lasts.
///
/// Such a program calls only functions that come to an end. It multiplies only
/// by small numbers, since a text times a large one is more than a machine can
/// hold, and it looks up only small indexes, since a list is filled up to an
/// index that is assigned to. A call is a name with `(` or `!` right behind it.
pub open spec fn runs_to_an_end(source: Seq<char>) -> bool {
    forall|i: int|
        0 <= i < source.len() && #[trigger] part_at(source, i) == Part::Code ==> lets_end(source, i)
}

/// Whether all functions that a program calls are ones whose results go by
/// their arguments.
pub open spec fn steady(source: Seq<char>) -> bool {
    forall|i: int|
        0 <= i < source.len() && #[trigger] part_at(source, i) == Part::Code && (source[i] == '('
            || source[i] == '!') ==> {
            let name = name_before(source, i);
            name.len() == 0 || goes_by_arguments(name, argument_commas(source, i))
        }
}

/// What the next character belongs to.
fn step(part: Part, c: char) -> (next: Part)
    ensures
        next == next_part(part, c),
{
    match part {
        Part::Code => if c == '"' {
            Part::Text
        } else if c == '\'' {
            Part::Quote
        } else if c == '#' {
            Part::Comment
        } else {
            Part::Code
        },
        Part::Text => if c == '\\' {
            Part::TextEscape
        } else if c == '"' {
            Part::Code
        } else {
            Part::Text
        },
        Part::TextEscape => Part::Text,
        Part::Quote => if c == '\\' {
            Part::QuoteEscape
        } else if c == '\'' {
            Part::Code
        } else {
            Part::Quote
        },
        Part::QuoteEscape => Part::Quote,
        Part::Comment => if c == '\n' {
            Part::Code
        } else {
            Part::Comment
        },
    }
}

/// Decides whether a character may stand in the name of a function.
fn name_char(c: char) -> (found: bool)
    ensures
        found == is_name_char(c),
{
    ('a' <= c && c <= 'z') || ('A' <= c && c <= 'Z') || ('0' <= c && c <= '9') || c == '_' || c
        == '@'
}

/// Decides whether a character is blank.
fn blank(c: char) -> (found: bool)
    ensures
        found == is_blank(c),
{
    c == ' ' || c == '\t' || c == '\n' || c == '\r'
}

/// The first place from here on that is not blank.
fn skip_blanks(chars: &Vec<char>, from: usize) -> (place: usize)
    requires
        from <= chars@.len(),
    ensures
        place == after_blanks(chars@, from as int),
        from <= place <= chars@.len(),
{
    let mut i: usize = from;
    while i < chars.len() && blank(chars[i])
        invariant
            from <= i <= chars@.len(),
            after_blanks(chars@, i as int) == after_blanks(chars@, from as int),
        decreases chars@.len() - i,
    {
        i = i + 1;
    }
    i
}

/// The first place from here on that holds no digit.
fn skip_digits(chars: &Vec<char>, from: usize) -> (place: usize)
    requires
        from <= chars@.len(),
    ensures
        place == after_digits(chars@, from as int),
        from <= place <= chars@.len(),
{
    let mut i: usize = from;
    while i < chars.len() && (('0' <= chars[i] && chars[i] <= '9') || chars[i] == '_')
        invariant
            from <= i <= chars@.len(),
            after_digits(chars@, i as int) == after_digits(chars@, from as int),
        decreases chars@.len() - i,
    {
        i = i + 1;
    }
    i
}

/// The name that ends at a place.
fn name_up_to(chars: &Vec<char>, end: usize) -> (name: String)
    requires
        end <= chars@.len(),
    ensures
        name@ == name_before(chars@, end as int),
{
    let mut start: usize = end;
    while start > 0 && name_char(chars[start - 1])
        invariant
            start <= end <= chars@.len(),
            name_start(chars@, start as int) == name_start(chars@, end as int),
        decreases start,
    {
        start = start - 1;
    }
    from_chars(chars, start, end)
}

/// How many commas stand between here and the bracket that closes one open
/// bracket, outside of further ones.
fn count_commas(chars: &Vec<char>, from: usize, part: Part) -> (count: usize)
    requires
        0 < from <= chars.len(),
        part == part_at(chars@, from as int),
    ensures
        count == commas(chars@, from as int, 1),
{
    let mut part = part;
    let mut open: usize = 1;
    let mut count: usize = 0;
    let mut i: usize = from;
    while i < chars.len() && open > 0
        invariant
            0 < from <= i <= chars.len(),
            open <= 1 + (i - from),
            count <= i - from,
            part == part_at(chars@, i as int),
            count + commas(chars@, i as int, open as int) == commas(chars@, from as int, 1),
        decreases chars@.len() - i,
    {
        let c = chars[i];
        if part == Part::Code {
            if c == '(' || c == '[' || c == '{' {
                open = open + 1;
            } else if c == ')' || c == ']' || c == '}' {
                open = open - 1;
            } else if c == ',' && open == 1 {
                count = count + 1;
            }
        }
        part = step(part, c);
        i = i + 1;
    }
    count
}

/// Decides whether a function, called with so many commas between its
/// arguments, may come to no end.
fn avoid(name: &str, commas: usize) -> (found: bool)
    ensures
        found == may_not_end(name@, commas as nat),
{
        same_text(name, "abs")
        || same_text(name, "camelcase")
        || same_text(name, "community_id")
        || same_text(name, "decode_charset")
        || same_text(name, "decode_gzip")
        || same_text(name, "decode_lz4")
        || same_text(name, "decode_mime_q")
        || same_text(name, "decode_punycode")
        || same_text(name, "decode_snappy")
        || same_text(name, "decode_zlib")
        || same_text(name, "decode_zstd")
        || same_text(name, "encode_charset")
        || same_text(name, "encode_csv")
        || same_text(name, "encode_gzip")
        || same_text(name, "encode_lz4")
        || same_text(name, "encode_punycode")
        || same_text(name, "encode_snappy")
        || same_text(name, "encode_zlib")
        || same_text(name, "encode_zstd")
        || same_text(name, "filter")
        || same_text(name, "format_int")
        || same_text(name, "format_number")
        || same_text(name, "format_timestamp")
        || same_text(name, "ip_subnet")
        || same_text(name, "kebabcase")
        || same_text(name, "match_any")
        || same_text(name, "match_datadog_query")
        || same_text(name, "parse_apache_log")
        || same_text(name, "parse_aws_alb_log")
        || same_text(name, "parse_aws_cloudwatch_log_subscription_message")
        || same_text(name, "parse_aws_vpc_flow_log")
        || same_text(name, "parse_bytes")
        || same_text(name, "parse_cbor")
        || same_text(name, "parse_cef")
        || same_text(name, "parse_common_log")
        || same_text(name, "parse_csv")
        || same_text(name, "parse_duration")
        || same_text(name, "parse_grok")
        || same_text(name, "parse_groks")
        || same_text(name, "parse_influxdb")
        || same_text(name, "parse_linux_authorization")
        || same_text(name, "parse_nginx_log")
        || same_text(name, "parse_ruby_hash")
        || same_text(name, "parse_syslog")
        || same_text(name, "parse_timestamp")
        || same_text(name, "parse_url")
        || same_text(name, "parse_user_agent")
        || same_text(name, "parse_xml")
        || same_text(name, "parse_yaml")
        || same_text(name, "pascalcase")
        || same_text(name, "random_bytes")
        || same_text(name, "random_float")
        || same_text(name, "random_int")
        || same_text(name, "screamingsnakecase")
        || same_text(name, "set")
        || same_text(name, "snakecase")
        || same_text(name, "strip_ansi_escape_codes")
        || same_text(name, "type_def")
        || same_text(name, "unflatten")
        || same_text(name, "unnest")
        || same_text(name, "uuid_from_friendly_id")
        || same_text(name, "uuid_v7")
        || same_text(name, "values")
        || (same_text(name, "find") && commas > 1)
        || (same_text(name, "starts_with") && commas > 1)
}

/// Decides whether a call lets the program come to an end, by the place behind
/// its name.
fn call_ends(chars: &Vec<char>, i: usize) -> (ends: bool)
    requires
        i < chars.len(),
        part_at(chars@, i as int) == Part::Code,
        chars@[i as int] == '(' || chars@[i as int] == '!',
    ensures
        ends == !may_not_end(name_before(chars@, i as int), argument_commas(chars@, i as int)),
{
    let mut start: usize = i + 1;
    let mut part = Part::Code;
    if chars[i] == '!' {
        start = skip_blanks(chars, i + 1);
        proof {
            blanks_are_code(chars@, i + 1);
        }
        if start < chars.len() {
            part = step(part, chars[start]);
            start = start + 1;
        } else {
            return !avoid(name_up_to(chars, i).as_str(), 0);
        }
    }
    !avoid(name_up_to(chars, i).as_str(), count_commas(chars, start, part))
}

/// Blanks in the program proper are followed by more of it.
proof fn blanks_are_code(source: Seq<char>, i: int)
    requires
        0 <= i <= source.len(),
        part_at(source, i) == Part::Code,
    ensures
        part_at(source, after_blanks(source, i)) == Part::Code,
        i <= after_blanks(source, i) <= source.len(),
    decreases source.len() - i,
{
    if i < source.len() && is_blank(source[i]) {
        assert(part_at(source, i + 1) == next_part(Part::Code, source[i]));
        blanks_are_code(source, i + 1);
    }
}

/// Decides whether what stands at a place of the program proper lets it come to
/// an end.
fn place_ends(chars: &Vec<char>, i: usize) -> (ends: bool)
    requires
        i < chars.len(),
        part_at(chars@, i as int) == Part::Code,
    ensures
        ends == lets_end(chars@, i as int),
{
    let c = chars[i];
    if !((' ' <= c && c <= '~') || blank(c)) {
        return false;
    }
    if c == '\'' {
        return i > 0 && (chars[i - 1] == 's' || chars[i - 1] == 'r' || chars[i - 1] == 't') && (i
            == 1 || !name_char(chars[i - 2]));
    }
    if c == '(' || c == '!' {
        return call_ends(chars, i);
    }
    if c == '*' {
        let start = skip_blanks(chars, i + 1);
        let end = skip_digits(chars, start);
        return 0 < end - start && end - start <= 6 && (end == chars.len() || !name_char(chars[end]));
    }
    if c == '[' && i > 0 && (name_char(chars[i - 1]) || chars[i - 1] == ']' || chars[i - 1] == '}'
        || chars[i - 1] == ')' || chars[i - 1] == '"' || chars[i - 1] == '.' || chars[i - 1]
        == '%') {
        let mut start = skip_blanks(chars, i + 1);
        if start < chars.len() && chars[start] == '-' {
            start = start + 1;
        }
        return skip_digits(chars, start) - start <= 6;
    }
    true
}

/// Decides whether compiling a program, and running it, always comes to an end
/// without a panic.
pub fn ends(source: &str) -> (found: bool)
    ensures
        found == runs_to_an_end(source@),
{
    let chars = to_chars(source);
    let mut part = Part::Code;
    let mut i: usize = 0;
    while i < chars.len()
        invariant
            i <= chars@.len(),
            chars@ == source@,
            part == part_at(chars@, i as int),
            forall|j: int|
                0 <= j < i && #[trigger] part_at(source@, j) == Part::Code ==> lets_end(source@, j),
        decreases chars@.len() - i,
    {
        if part == Part::Code && !place_ends(&chars, i) {
            assert(part_at(source@, i as int) == Part::Code);
            return false;
        }
        part = step(part, chars[i]);
        i = i + 1;
    }
    true
}

/// Without quotation marks and comments all of a program is the program proper.
proof fn all_is_code(source: Seq<char>, i: int)
    requires
        0 <= i <= source.len(),
        forall|j: int|
            0 <= j < source.len() ==> #[trigger] source[j] != '"' && source[j] != '\'' && source[j]
                != '#',
    ensures
        part_at(source, i) == Part::Code,
    decreases i,
{
    if i > 0 {
        all_is_code(source, i - 1);
        assert(source[i - 1] != '"');
    }
}

/// A program that calls nothing, multiplies nothing and looks up no index comes
/// to an end, whatever else stands in it.
pub proof fn plain_programs_end(source: &str, found: bool)
    requires
        call_ensures(ends, (source,), found),
        forall|i: int|
            0 <= i < source@.len() ==> {
                let c = #[trigger] source@[i];
                &&& ' ' <= c <= '~' || c == '\t' || c == '\n' || c == '\r'
                &&& c != '\'' && c != '(' && c != '!' && c != '*' && c != '['
            },
    ensures
        found,
{
}

/// A program with a character outside of texts and comments that no program has
/// is not let through, nor is one that multiplies by something else than a
/// number that is written out.
pub proof fn odd_programs_are_kept_out(source: &str, found: bool, i: int)
    requires
        call_ensures(ends, (source,), found),
        forall|j: int|
            0 <= j < source@.len() ==> #[trigger] source@[j] != '"' && source@[j] != '\''
                && source@[j] != '#',
        0 <= i < source@.len(),
        ({
            ||| !(' ' <= source@[i] <= '~') && source@[i] != '\t' && source@[i] != '\n' && source@[i]
                != '\r'
            ||| source@[i] == '*' && i + 1 == source@.len()
            ||| source@[i] == '*' && {
                let c = source@[i + 1];
                !('0' <= c <= '9') && c != '_' && c != ' ' && c != '\t' && c != '\n' && c != '\r'
            }
        }),
    ensures
        !found,
{
    all_is_code(source@, i);
    if source@[i] == '*' {
        assert(after_blanks(source@, i + 1) == i + 1);
        assert(after_digits(source@, i + 1) == i + 1);
    }
}

/// Whether a name of letters, digits, underscores and at signs stands right
/// before a place, and is no part of a longer one.
pub open spec fn stands_before(source: Seq<char>, name: Seq<char>, end: int) -> bool {
    &&& 0 <= end - name.len() <= end <= source.len()
    &&& source.subrange(end - name.len(), end) == name
    &&& forall|i: int|
        0 <= i < name.len() ==> {
            let c = #[trigger] name[i];
            'a' <= c <= 'z' || 'A' <= c <= 'Z' || '0' <= c <= '9' || c == '_' || c == '@'
        }
    &&& end - name.len() > 0 ==> {
        let c = source[end - name.len() - 1];
        !('a' <= c <= 'z') && !('A' <= c <= 'Z') && !('0' <= c <= '9') && c != '_' && c != '@'
    }
}

/// The name before a place is the whole name that stands there.
proof fn whole_name_is_found(source: Seq<char>, name: Seq<char>, end: int)
    requires
        stands_before(source, name, end),
    ensures
        name_start(source, end) == end - name.len(),
        name_before(source, end) == name,
    decreases name.len(),
{
    if name.len() > 0 {
        let rest = name.drop_last();
        assert(source[end - 1] == name.last()) by {
            assert(source.subrange(end - name.len(), end)[name.len() - 1] == name[name.len() - 1]);
        }
        assert(source.subrange(end - 1 - rest.len(), end - 1) =~= rest) by {
            assert forall|i: int| 0 <= i < rest.len() implies source.subrange(
                end - 1 - rest.len(),
                end - 1,
            )[i] == rest[i] by {
                assert(source.subrange(end - name.len(), end)[i] == name[i]);
            }
        }
        assert forall|i: int| 0 <= i < rest.len() implies {
            let c = #[trigger] rest[i];
            'a' <= c <= 'z' || 'A' <= c <= 'Z' || '0' <= c <= '9' || c == '_' || c == '@'
        } by {
            assert(rest[i] == name[i]);
        }
        whole_name_is_found(source, rest, end - 1);
    }
}

/// A program that calls a function by the name of one that may come to no end is
/// not let through.
pub proof fn unending_calls_are_kept_out(source: &str, found: bool, name: Seq<char>, i: int)
    requires
        call_ensures(ends, (source,), found),
        forall|j: int|
            0 <= j < source@.len() ==> #[trigger] source@[j] != '"' && source@[j] != '\''
                && source@[j] != '#',
        0 <= i < source@.len(),
        source@[i] == '(' || source@[i] == '!',
        stands_before(source@, name, i),
        name == "abs"@ || name == "camelcase"@ || name == "decode_gzip"@ || name == "encode_zlib"@ || name
            == "filter"@ || name == "format_int"@ || name == "parse_duration"@ || name == "parse_grok"@
            || name == "parse_timestamp"@ || name == "random_bytes"@ || name == "random_float"@ || name
            == "random_int"@ || name == "snakecase"@ || name == "unnest"@ || name == "uuid_v7"@ || name
            == "values"@,
    ensures
        !found,
{
    all_is_code(source@, i);
    whole_name_is_found(source@, name, i);
}

} // verus!
