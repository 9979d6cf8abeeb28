//! What texts, numerals, colors and log lines mean.

use vstd::prelude::*;
use vstd::relations::*;
use vstd::seq_lib::*;

use crate::graph_laws;
use crate::logger;
use crate::logger::{Level, Logger};
use crate::order;
use crate::outside;
use crate::text;
use crate::types::{GraphView, Version};

verus! {

/// The number that a decimal numeral denotes.
pub open spec fn number(digits: Seq<char>) -> int
    decreases digits.len(),
{
    if digits.len() == 0 {
        0
    } else {
        10 * number(digits.drop_last()) + (digits.last() as int - '0' as int)
    }
}

/// All characters are decimal digits.
pub open spec fn all_digits(digits: Seq<char>) -> bool {
    forall|i: int| 0 <= i < digits.len() ==> '0' <= #[trigger] digits[i] <= '9'
}

/// A numeral denotes the number that it was made of, has only digits, and has a leading zero only
/// when it is the numeral of zero.
pub proof fn lemma_numeral_denotes_its_number(n: nat)
    ensures
        number(text::decimal(n)) == n,
        all_digits(text::decimal(n)),
        text::decimal(n).len() > 0,
        n > 0 ==> text::decimal(n)[0] != '0',
        n == 0 ==> text::decimal(n).len() == 1,
    decreases n,
{
    let digits = text::decimal(n);
    if n < 10 {
        assert(digits.drop_last() =~= Seq::<char>::empty());
        assert(number(digits.drop_last()) == 0);
    } else {
        lemma_numeral_denotes_its_number(n / 10);
        assert(digits.drop_last() =~= text::decimal(n / 10));
        assert(digits.last() == text::digit_char(n % 10));
    }
}

/// The text of a version is its three numbers, major first, with a dot between each two. Versions
/// that differ have different texts.
pub proof fn lemma_version_text_tells_the_version(v: Version, w: Version)
    requires
        v.text() == w.text(),
    ensures
        v == w,
{
    lemma_numeral_denotes_its_number(v.major as nat);
    lemma_numeral_denotes_its_number(v.minor as nat);
    lemma_numeral_denotes_its_number(v.patch as nat);
    lemma_numeral_denotes_its_number(w.major as nat);
    lemma_numeral_denotes_its_number(w.minor as nat);
    lemma_numeral_denotes_its_number(w.patch as nat);
    reveal_strlit(".");
    let a = text::decimal(v.major as nat);
    let b = text::decimal(w.major as nat);
    let a2 = text::decimal(v.minor as nat);
    let b2 = text::decimal(w.minor as nat);
    let a3 = text::decimal(v.patch as nat);
    let b3 = text::decimal(w.patch as nat);
    let rest = a2 + "."@ + a3;
    let other = b2 + "."@ + b3;
    assert(v.text() =~= a + "."@ + rest);
    assert(w.text() =~= b + "."@ + other);
    lemma_dot_splits(a, rest, b, other);
    lemma_dot_splits(a2, a3, b2, b3);
}

/// Digits before a dot are told from what follows it.
proof fn lemma_dot_splits(a: Seq<char>, x: Seq<char>, b: Seq<char>, y: Seq<char>)
    requires
        all_digits(a),
        all_digits(b),
        a + "."@ + x == b + "."@ + y,
    ensures
        a == b,
        x == y,
{
    reveal_strlit(".");
    let s = a + "."@ + x;
    let t = b + "."@ + y;
    assert(s[a.len() as int] == '.');
    assert(t[b.len() as int] == '.');
    if a.len() < b.len() {
        assert(t[a.len() as int] == b[a.len() as int]);
    } else if b.len() < a.len() {
        assert(s[b.len() as int] == a[b.len() as int]);
    } else {
        assert(a =~= s.take(a.len() as int));
        assert(b =~= t.take(a.len() as int));
        assert(x =~= s.skip((a.len() + 1) as int));
        assert(y =~= t.skip((a.len() + 1) as int));
    }
}

/// The major number stands before the first dot and the patch number behind the last.
pub proof fn lemma_version_text_order(v: Version)
    ensures
        text::decimal(v.major as nat).is_prefix_of(v.text()),
        text::decimal(v.patch as nat).is_suffix_of(v.text()),
        v.text().len() == text::decimal(v.major as nat).len() + text::decimal(
            v.minor as nat,
        ).len() + text::decimal(v.patch as nat).len() + 2,
{
    reveal_strlit(".");
    assert(text::decimal(v.major as nat) =~= v.text().take(
        text::decimal(v.major as nat).len() as int,
    ));
}

/// The first character in which two texts differ decides which comes first, by code point. A text
/// comes before every longer one that begins with it.
pub proof fn lemma_first_difference_decides(a: Seq<char>, b: Seq<char>, k: int)
    requires
        0 <= k <= a.len(),
        k <= b.len(),
        a.take(k) == b.take(k),
    ensures
        k < a.len() && k < b.len() && a[k] < b[k] ==> text::text_le(a, b) && !text::text_le(b, a),
        k == a.len() ==> text::text_le(a, b),
        k == a.len() && k < b.len() ==> !text::text_le(b, a),
    decreases k,
{
    if k > 0 {
        assert(a[0] == a.take(k)[0] && b[0] == b.take(k)[0]);
        assert(a.drop_first().take(k - 1) =~= a.take(k).drop_first());
        assert(b.drop_first().take(k - 1) =~= b.take(k).drop_first());
        lemma_first_difference_decides(a.drop_first(), b.drop_first(), k - 1);
    }
}

/// Joining nothing gives nothing, joining one part gives that part, and joining two lists of parts
/// puts the separator once between what each of them gives.
pub proof fn lemma_joining_lists(
    first: Seq<Seq<char>>,
    second: Seq<Seq<char>>,
    separator: Seq<char>,
)
    ensures
        first.len() == 0 ==> text::joined(first, separator).len() == 0,
        first.len() == 1 ==> text::joined(first, separator) == first[0],
        first.len() > 0 && second.len() > 0 ==> text::joined(first + second, separator)
            == text::joined(first, separator) + separator + text::joined(second, separator),
    decreases second.len(),
{
    if first.len() > 0 && second.len() > 0 {
        let all = first + second;
        assert(all.drop_last() =~= first + second.drop_last());
        assert(all.last() == second.last());
        if second.len() == 1 {
            assert(first + second.drop_last() =~= first);
        } else {
            lemma_joining_lists(first, second.drop_last(), separator);
            assert(text::joined(all, separator) =~= text::joined(first, separator) + separator
                + text::joined(second, separator));
        }
    }
}

/// The message about a dependency cycle lists, after a fixed beginning, the names of exactly the
/// services that lead into a cycle, each once, in lexicographic order with commas between them.
pub proof fn lemma_cycle_message_lists_the_names(g: GraphView)
    requires
        graph_laws::well_formed(g),
    ensures
        exists|names: Seq<Seq<char>>|
            {
                &&& order::cycle_message(g) == "dependency cycle: "@ + #[trigger] text::joined(
                    names,
                    ", "@,
                )
                &&& forall|i: int, j: int|
                    0 <= i < j < names.len() ==> text::text_le(
                        #[trigger] names[i],
                        #[trigger] names[j],
                    )
                &&& forall|name: Seq<char>| #[trigger]
                    names.contains(name) <==> exists|u: usize|
                        u < g.nodes.len() && #[trigger] graph_laws::leads_to_cycle(g, u)
                            && g.nodes[u as int].service.name == name
                &&& names.len() == order::blocked(g).len()
            },
{
    let blocked = order::blocked(g);
    let named = blocked.map_values(|i: usize| g.nodes[i as int].service.name);
    let names = text::sorted_texts(named);
    text::lemma_sorted_texts(named);
    named.to_multiset_ensures();
    names.to_multiset_ensures();
    let le = text::text_order();
    assert forall|i: int, j: int| 0 <= i < j < names.len() implies text::text_le(
        #[trigger] names[i],
        #[trigger] names[j],
    ) by {
        assert(le(names[i], names[j]));
    }
    assert forall|name: Seq<char>| #[trigger]
        names.contains(name) <==> exists|u: usize|
            u < g.nodes.len() && #[trigger] graph_laws::leads_to_cycle(g, u)
                && g.nodes[u as int].service.name == name by {
        assert(names.contains(name) <==> names.to_multiset().count(name) > 0);
        assert(named.contains(name) <==> named.to_multiset().count(name) > 0);
        if named.contains(name) {
            let k = named.index_of(name);
            let u = blocked[k];
            assert(blocked.contains(u));
            graph_laws::lemma_blocked_iff_leads_to_cycle(g, u);
        }
        if exists|u: usize|
            u < g.nodes.len() && #[trigger] graph_laws::leads_to_cycle(g, u)
                && g.nodes[u as int].service.name == name {
            let u = choose|u: usize|
                u < g.nodes.len() && #[trigger] graph_laws::leads_to_cycle(g, u)
                    && g.nodes[u as int].service.name == name;
            graph_laws::lemma_blocked_iff_leads_to_cycle(g, u);
            let k = blocked.index_of(u);
            assert(named[k] == name);
        }
    }
    assert(order::cycle_message(g) == "dependency cycle: "@ + text::joined(names, ", "@));
}

/// The lower case hexadecimal digit of a value.
pub open spec fn lower_digit(v: int) -> char {
    if v < 10 {
        ('0' as int + v) as char
    } else {
        ('a' as int + v - 10) as char
    }
}

/// The upper case hexadecimal digit of a value.
pub open spec fn upper_digit(v: int) -> char {
    if v < 10 {
        ('0' as int + v) as char
    } else {
        ('A' as int + v - 10) as char
    }
}

/// The value can be written as the character.
pub open spec fn writes(v: int, c: char) -> bool {
    0 <= v < 16 && (c == lower_digit(v) || c == upper_digit(v))
}

/// A value of a color channel can be written as the two characters: as two hexadecimal digits, or,
/// where one is enough, as a plus sign and a digit.
pub open spec fn channel(v: u8, high: char, low: char) -> bool {
    ||| writes(v as int / 16, high) && writes(v as int % 16, low)
    ||| v < 16 && high == '+' && writes(v as int, low)
}

/// A color is read exactly as it can be written: a hash sign, then red, green and blue with two
/// characters each.
pub proof fn lemma_color_is_read_as_written(color: Seq<char>, red: u8, green: u8, blue: u8)
    ensures
        logger::rgb(color) == Some((red, green, blue)) <==> {
            &&& color.len() == 7
            &&& color[0] == '#'
            &&& channel(red, color[1], color[2])
            &&& channel(green, color[3], color[4])
            &&& channel(blue, color[5], color[6])
        },
{
    if color.len() == 7 {
        lemma_channel_is_read_as_written(red, color[1], color[2]);
        lemma_channel_is_read_as_written(green, color[3], color[4]);
        lemma_channel_is_read_as_written(blue, color[5], color[6]);
    }
}

proof fn lemma_channel_is_read_as_written(v: u8, high: char, low: char)
    ensures
        logger::hex_byte(high, low) == Some(v) <==> channel(v, high, low),
{
    lemma_digit_is_read_as_written(v as int / 16, high);
    lemma_digit_is_read_as_written(v as int % 16, low);
    lemma_digit_is_read_as_written(v as int, low);
    lemma_hex_value_in_range(high);
    lemma_hex_value_in_range(low);
    assert(v as int == 16 * (v as int / 16) + v as int % 16);
    match (logger::hex_value(high), logger::hex_value(low)) {
        (Some(h), Some(l)) => {
            assert((16 * h + l) as u8 == 16 * h + l);
        },
        (None, Some(l)) => {
            assert(l as u8 == l);
        },
        _ => {},
    }
}

proof fn lemma_hex_value_in_range(c: char)
    ensures
        logger::hex_value(c) matches Some(v) ==> 0 <= v < 16,
        c == '+' ==> logger::hex_value(c) is None,
{
}

proof fn lemma_digit_is_read_as_written(v: int, c: char)
    ensures
        logger::hex_value(c) == Some(v) <==> writes(v, c),
{
    if 0 <= v < 16 {
        assert(lower_digit(v) as int == if v < 10 {
            '0' as int + v
        } else {
            'a' as int + v - 10
        });
        assert(upper_digit(v) as int == if v < 10 {
            '0' as int + v
        } else {
            'A' as int + v - 10
        });
    }
}

/// Levels are ordered from errors, the most important, to debugging details.
pub proof fn lemma_levels_by_importance(level: Level)
    ensures
        Level::Error.rank() < Level::Warn.rank() < Level::Info.rank() < Level::Debug.rank(),
        Level::Error.rank() <= level.rank() <= Level::Debug.rank(),
{
}

/// A logger logs its own level and everything more important, and nothing less important.
pub proof fn lemma_logger_drops_less_important_messages(logger: Logger, level: Level)
    ensures
        logger.logs(logger.level()),
        level.rank() < logger.level().rank() ==> logger.logs(level),
        level.rank() > logger.level().rank() ==> !logger.logs(level),
{
}

/// A log line begins with the color and the time, ends with the message, unchanged, and in between
/// names its source in brackets and switches the color off.
pub proof fn lemma_line_holds_its_parts(
    color: Seq<char>,
    timestamp: Seq<char>,
    source: Seq<char>,
    message: Seq<char>,
)
    ensures
        ({
            let line = logger::prefixed_line(color, timestamp, source, message);
            let a = color.len() as int;
            let b = a + timestamp.len();
            let c = b + 2 + source.len();
            &&& line.len() == c + 7 + message.len()
            &&& line.subrange(0, a) == color
            &&& line.subrange(a, b) == timestamp
            &&& line.subrange(b + 2, c) == source
            &&& line.subrange(c + 7, line.len() as int) == message
            &&& line.subrange(b, b + 2) == " ["@
            &&& line.subrange(c, c + 7) == "]:\x1b[0m "@
        }),
{
    reveal_strlit(" [");
    reveal_strlit("]:");
    reveal_strlit(" ");
    reveal_strlit("\x1b[0m");
    reveal_strlit("]:\x1b[0m ");
    let line = logger::prefixed_line(color, timestamp, source, message);
    let a = color.len() as int;
    let b = a + timestamp.len();
    let c = b + 2 + source.len();
    assert(logger::RESET@.len() == 4);
    assert(line.subrange(0, a) =~= color);
    assert(line.subrange(a, b) =~= timestamp);
    assert(line.subrange(b + 2, c) =~= source);
    assert(line.subrange(c + 7, line.len() as int) =~= message);
    assert(line.subrange(b, b + 2) =~= " ["@);
    assert(line.subrange(c, c + 7) =~= "]:\x1b[0m "@);
}

/// The line of a message of a level names that level and has its color.
pub proof fn lemma_level_line_names_the_level(
    level: Level,
    timestamp: Seq<char>,
    message: Seq<char>,
)
    ensures
        logger::level_line(level, timestamp, message) == logger::prefixed_line(
            match level {
                Level::Error => "\x1b[0;31m"@,
                Level::Warn => "\x1b[0;33m"@,
                Level::Info => "\x1b[0;36m"@,
                Level::Debug => "\x1b[0;35m"@,
            },
            timestamp,
            match level {
                Level::Error => "ERROR"@,
                Level::Warn => "WARN"@,
                Level::Info => "INFO"@,
                Level::Debug => "DEBUG"@,
            },
            message,
        ),
{
}

/// A service whose color can be read is logged in that color, channel by channel; without a color,
/// or with one that cannot be read, it is logged like information.
pub proof fn lemma_service_color_falls_back(color: Option<Seq<char>>)
    ensures
        color is None ==> logger::service_color_code(color) == "\x1b[0;36m"@,
        color is Some && logger::rgb(color->0) is None ==> logger::service_color_code(color)
            == "\x1b[0;36m"@,
        color is Some && logger::rgb(color->0) is Some ==> {
            let (red, green, blue) = logger::rgb(color->0)->0;
            let channels = seq![
                text::decimal(red as nat),
                text::decimal(green as nat),
                text::decimal(blue as nat),
            ];
            logger::service_color_code(color) == "\x1b[38;2;"@ + text::joined(channels, ";"@) + "m"@
        },
{
    if color is Some && logger::rgb(color->0) is Some {
        let (red, green, blue) = logger::rgb(color->0)->0;
        let r = text::decimal(red as nat);
        let g = text::decimal(green as nat);
        let b = text::decimal(blue as nat);
        let channels = seq![r, g, b];
        assert(channels.drop_last() =~= seq![r, g]);
        assert(seq![r, g].drop_last() =~= seq![r]);
        assert(text::joined(seq![r], ";"@) == r);
        assert(text::joined(seq![r, g], ";"@) == r + ";"@ + g);
        assert(text::joined(channels, ";"@) == r + ";"@ + g + ";"@ + b);
        assert(logger::service_color_code(color) =~= "\x1b[38;2;"@ + text::joined(channels, ";"@)
            + "m"@);
    }
}

/// A logger gives a line exactly for the levels that it logs, and that line is the line of the
/// message at some time of day.
pub proof fn lemma_line_comes_iff_logged(
    logger: Logger,
    level: Level,
    message: Seq<char>,
    line: Option<String>,
)
    requires
        logger.renders(level, message, line),
    ensures
        line is Some <==> logger.logs(level),
        line matches Some(text) ==> exists|timestamp: Seq<char>| #[trigger]
            outside::is_timestamp(timestamp) && text@ == logger::level_line(
                level,
                timestamp,
                message,
            ),
{
}

/// A list of strings says each of them at its place; an optional string says what it holds.
pub proof fn lemma_strings_say_all(
    strings: Seq<String>,
    i: int,
    string: Option<String>,
    slice: Option<&str>,
)
    requires
        0 <= i < strings.len(),
    ensures
        text::texts(strings).len() == strings.len(),
        text::texts(strings)[i] == strings[i]@,
        string is None ==> text::text_of(string) is None,
        string matches Some(s) ==> text::text_of(string) == Some(s@),
        slice is None ==> logger::optional_text(slice) is None,
        slice matches Some(s) ==> logger::optional_text(slice) == Some(s@),
{
}

} // verus!
