//! Settings of the delay test, with their defaults.
use crate::text;
use vstd::prelude::*;

verus! {

/// The page that a delay test fetches where the user has set none.
pub const DEFAULT_LATENCY_TEST_URL: &'static str = "http://cp.cloudflare.com/generate_204";

/// The timeout of a delay test where the user has set none, in milliseconds.
pub const DEFAULT_LATENCY_TIMEOUT_MS: u32 = 10_000;

/// How many nodes of a group are measured at the same time.
pub const TRAY_DELAY_TEST_CONCURRENCY: usize = 10;

/// The timeout in force for a setting: the setting where it is positive.
pub open spec fn latency_timeout(setting: Option<i16>) -> u32 {
    match setting {
        Some(timeout) if timeout > 0 => timeout as u32,
        _ => DEFAULT_LATENCY_TIMEOUT_MS,
    }
}

/// A character with the Unicode property `White_Space`.
pub open spec fn white_space(c: char) -> bool {
    ||| '\u{9}' <= c <= '\u{D}'
    ||| c == '\u{20}'
    ||| c == '\u{85}'
    ||| c == '\u{A0}'
    ||| c == '\u{1680}'
    ||| '\u{2000}' <= c <= '\u{200A}'
    ||| c == '\u{2028}'
    ||| c == '\u{2029}'
    ||| c == '\u{202F}'
    ||| c == '\u{205F}'
    ||| c == '\u{3000}'
}

/// A text of white space only.
pub open spec fn is_blank(text: Seq<char>) -> bool {
    forall|i: int| 0 <= i < text.len() ==> white_space(#[trigger] text[i])
}

/// `char::is_whitespace` tells white space.
///
/// Trusted: it answers yes exactly for the characters that have the Unicode property
/// `White_Space`, which are those that `white_space` lists.
pub assume_specification[ char::is_whitespace ](c: char) -> (answer: bool)
    ensures
        answer == white_space(c),
;

/// `text` without the white space at its start.
pub open spec fn trimmed_start(text: Seq<char>) -> Seq<char>
    decreases text.len(),
{
    if text.len() > 0 && white_space(text[0]) {
        trimmed_start(text.drop_first())
    } else {
        text
    }
}

/// `text` without the white space at its end.
pub open spec fn trimmed_end(text: Seq<char>) -> Seq<char>
    decreases text.len(),
{
    if text.len() > 0 && white_space(text.last()) {
        trimmed_end(text.drop_last())
    } else {
        text
    }
}

/// `text` without the white space around it.
pub open spec fn trimmed(text: Seq<char>) -> Seq<char> {
    trimmed_end(trimmed_start(text))
}

/// The test page in force for a setting that has been trimmed: the setting where it is not empty.
pub open spec fn test_url(setting: Option<Seq<char>>) -> Seq<char> {
    match setting {
        Some(url) if url.len() > 0 => url,
        _ => DEFAULT_LATENCY_TEST_URL@,
    }
}

/// The trimmed form of a setting.
pub open spec fn trimmed_setting(setting: Option<Seq<char>>) -> Option<Seq<char>> {
    match setting {
        Some(url) => Some(trimmed(url)),
        None => None,
    }
}

/// The characters of an optional string slice.
pub open spec fn optional_chars(text: Option<&str>) -> Option<Seq<char>> {
    match text {
        Some(text) => Some(text@),
        None => None,
    }
}

/// The timeout in force for the configured one. A missing, zero or negative setting gives the
/// default.
pub fn resolve_latency_timeout_from_config(default_latency_timeout: Option<i16>) -> (timeout: u32)
    ensures
        timeout == latency_timeout(default_latency_timeout),
{
    match default_latency_timeout {
        Some(timeout) => if timeout > 0 {
            timeout as u32
        } else {
            DEFAULT_LATENCY_TIMEOUT_MS
        },
        None => DEFAULT_LATENCY_TIMEOUT_MS,
    }
}

/// Removes the white space around `text`.
pub fn trim<'a>(text: &'a str) -> (rest: &'a str)
    ensures
        rest@ == trimmed(text@),
{
    let chars = text::chars_of(text);
    let mut start: usize = 0;
    assert(text@.skip(0) =~= text@);
    while start < chars.len() && chars[start].is_whitespace()
        invariant
            start <= chars@.len(),
            chars@ == text@,
            trimmed_start(text@) == trimmed_start(text@.skip(start as int)),
        ensures
            start <= chars@.len(),
            trimmed_start(text@) == text@.skip(start as int),
        decreases chars@.len() - start,
    {
        assert(text@.skip(start as int).drop_first() =~= text@.skip(start + 1));
        start = start + 1;
    }
    let mut end: usize = chars.len();
    assert(text@.subrange(start as int, end as int) =~= text@.skip(start as int));
    while end > start && chars[end - 1].is_whitespace()
        invariant
            start <= end <= chars@.len(),
            chars@ == text@,
            trimmed(text@) == trimmed_end(text@.subrange(start as int, end as int)),
        ensures
            start <= end <= chars@.len(),
            trimmed(text@) == text@.subrange(start as int, end as int),
        decreases end,
    {
        assert(text@.subrange(start as int, end as int).drop_last() =~= text@.subrange(
            start as int,
            end - 1,
        ));
        end = end - 1;
    }
    text.substring_char(start, end)
}

/// The test page in force for the configured one. A missing or blank setting gives the default,
/// any other is used without the white space around it.
pub fn resolve_latency_test_url(default_latency_test: Option<&str>) -> (url: String)
    ensures
        url@ == test_url(trimmed_setting(optional_chars(default_latency_test))),
{
    match default_latency_test {
        Some(url) => {
            let url = trim(url);
            if url.is_empty() {
                DEFAULT_LATENCY_TEST_URL.to_owned()
            } else {
                url.to_owned()
            }
        },
        None => DEFAULT_LATENCY_TEST_URL.to_owned(),
    }
}

/// A delay test always has a positive timeout.
pub proof fn latency_timeout_is_positive(setting: Option<i16>)
    ensures
        latency_timeout(setting) > 0,
{
}

/// A delay test always has a page to fetch, and none starts or ends with white space.
pub proof fn test_url_is_never_blank(setting: Option<Seq<char>>)
    ensures
        test_url(trimmed_setting(setting)).len() > 0,
        !white_space(test_url(trimmed_setting(setting))[0]),
        !white_space(test_url(trimmed_setting(setting)).last()),
{
    reveal_strlit("http://cp.cloudflare.com/generate_204");
    if let Some(url) = setting {
        lemma_trimmed_start(url);
        lemma_trimmed_end(trimmed_start(url));
    }
}

/// A blank setting gives the default page, as a missing one does.
pub proof fn blank_setting_gives_default(setting: Seq<char>)
    requires
        is_blank(setting),
    ensures
        test_url(trimmed_setting(Some(setting))) == DEFAULT_LATENCY_TEST_URL@,
        test_url(trimmed_setting(None)) == DEFAULT_LATENCY_TEST_URL@,
{
    lemma_drop_blank_start(setting, seq![]);
    assert(setting + seq![] =~= setting);
}

/// A page with white space around it is used without that white space, and with all that it holds
/// inside.
pub proof fn padded_setting_gives_its_page(before: Seq<char>, page: Seq<char>, after: Seq<char>)
    requires
        is_blank(before),
        is_blank(after),
        page.len() > 0,
        !white_space(page[0]),
        !white_space(page.last()),
    ensures
        test_url(trimmed_setting(Some(before + page + after))) == page,
{
    lemma_drop_blank_start(before, page + after);
    assert(before + page + after =~= before + (page + after));
    assert(trimmed_start(page + after) == page + after);
    lemma_drop_blank_end(page, after);
}

/// White space in front of a text is dropped.
proof fn lemma_drop_blank_start(blank: Seq<char>, text: Seq<char>)
    requires
        is_blank(blank),
    ensures
        trimmed_start(blank + text) == trimmed_start(text),
    decreases blank.len(),
{
    let whole = blank + text;
    if blank.len() == 0 {
        assert(whole =~= text);
    } else {
        let rest = blank.drop_first();
        assert(whole[0] == blank[0]);
        assert(whole.drop_first() =~= rest + text);
        assert forall|i: int| 0 <= i < rest.len() implies white_space(#[trigger] rest[i]) by {
            assert(rest[i] == blank[i + 1]);
        }
        lemma_drop_blank_start(rest, text);
    }
}

/// White space behind a text is dropped.
proof fn lemma_drop_blank_end(text: Seq<char>, blank: Seq<char>)
    requires
        is_blank(blank),
        text.len() > 0,
        !white_space(text.last()),
    ensures
        trimmed_end(text + blank) == text,
    decreases blank.len(),
{
    let whole = text + blank;
    if blank.len() == 0 {
        assert(whole =~= text);
    } else {
        assert(whole.last() == blank[blank.len() - 1]);
        assert(whole.drop_last() =~= text + blank.drop_last());
        lemma_drop_blank_end(text, blank.drop_last());
    }
}

/// Nothing blank is left at the start.
proof fn lemma_trimmed_start(text: Seq<char>)
    ensures
        trimmed_start(text).len() > 0 ==> !white_space(trimmed_start(text)[0]),
    decreases text.len(),
{
    if text.len() > 0 && white_space(text[0]) {
        lemma_trimmed_start(text.drop_first());
    }
}

/// Nothing blank is left at the end, and the start stays as it was.
proof fn lemma_trimmed_end(text: Seq<char>)
    ensures
        trimmed_end(text).len() > 0 ==> !white_space(trimmed_end(text).last()),
        trimmed_end(text).len() > 0 ==> trimmed_end(text)[0] == text[0],
        trimmed_end(text).len() <= text.len(),
    decreases text.len(),
{
    if text.len() > 0 && white_space(text.last()) {
        lemma_trimmed_end(text.drop_last());
    }
}

/// The timeout in numbers: a positive setting is used as it is, any other gives ten seconds.
pub proof fn timeouts_in_numbers(setting: Option<i16>)
    ensures
        setting is None ==> latency_timeout(setting) == 10_000,
        setting matches Some(timeout) ==> {
            &&& timeout > 0 ==> latency_timeout(setting) == timeout
            &&& timeout <= 0 ==> latency_timeout(setting) == 10_000
        },
{
}

/// Any setting is either blank or a page with white space around it, so every setting falls under
/// one of the two laws on settings.
pub proof fn settings_are_blank_or_padded(setting: Seq<char>)
    ensures
        is_blank(setting) || exists|before: Seq<char>, page: Seq<char>, after: Seq<char>|
            #![trigger before + page + after]
            {
                &&& setting == before + page + after
                &&& is_blank(before)
                &&& is_blank(after)
                &&& page.len() > 0
                &&& !white_space(page[0])
                &&& !white_space(page.last())
            },
    decreases setting.len(),
{
    if setting.len() > 0 && !is_blank(setting) {
        if white_space(setting[0]) {
            let rest = setting.drop_first();
            settings_are_blank_or_padded(rest);
            if is_blank(rest) {
                assert forall|i: int| 0 <= i < setting.len() implies white_space(
                    #[trigger] setting[i],
                ) by {
                    if i > 0 {
                        assert(rest[i - 1] == setting[i]);
                    }
                }
            } else {
                let (before, page, after) = choose|
                    before: Seq<char>,
                    page: Seq<char>,
                    after: Seq<char>,
                |
                    #![trigger before + page + after]
                    {
                        &&& rest == before + page + after
                        &&& is_blank(before)
                        &&& is_blank(after)
                        &&& page.len() > 0
                        &&& !white_space(page[0])
                        &&& !white_space(page.last())
                    };
                let longer = seq![setting[0]] + before;
                assert forall|i: int| 0 <= i < longer.len() implies white_space(
                    #[trigger] longer[i],
                ) by {
                    if i > 0 {
                        assert(longer[i] == before[i - 1]);
                    }
                }
                assert(setting =~= seq![setting[0]] + rest);
                assert(seq![setting[0]] + (before + page + after) =~= longer + page + after);
            }
        } else if white_space(setting.last()) {
            let rest = setting.drop_last();
            settings_are_blank_or_padded(rest);
            assert(rest[0] == setting[0]);
            assert(!is_blank(rest));
            let (before, page, after) = choose|
                before: Seq<char>,
                page: Seq<char>,
                after: Seq<char>,
            |
                #![trigger before + page + after]
                {
                    &&& rest == before + page + after
                    &&& is_blank(before)
                    &&& is_blank(after)
                    &&& page.len() > 0
                    &&& !white_space(page[0])
                    &&& !white_space(page.last())
                };
            let longer = after.push(setting.last());
            assert(setting =~= rest.push(setting.last()));
            assert((before + page + after).push(setting.last()) =~= before + page + longer);
        } else {
            let none = Seq::<char>::empty();
            assert(setting =~= none + setting + none);
        }
    }
}

/// The default page, and what an optional setting is as text.
pub proof fn default_page_and_settings(setting: &str)
    ensures
        test_url(trimmed_setting(None)) == "http://cp.cloudflare.com/generate_204"@,
        optional_chars(Some(setting)) == Some(setting@),
        optional_chars(None) is None,
{
}

/// White space by code points: the control characters from tab to carriage return and next line, the
/// spaces, and the line and paragraph separators.
pub proof fn white_space_by_code_points(c: char)
    ensures
        white_space(c) <==> {
            let code = c as u32;
            ||| 9 <= code <= 13
            ||| code == 32
            ||| code == 133
            ||| code == 160
            ||| code == 5760
            ||| 8192 <= code <= 8202
            ||| code == 8232
            ||| code == 8233
            ||| code == 8239
            ||| code == 8287
            ||| code == 12288
        },
{
}

/// A delay test has room for ten nodes at a time.
pub proof fn tests_run_ten_at_a_time()
    ensures
        TRAY_DELAY_TEST_CONCURRENCY == 10,
{
}

} // verus!
