//! Recognising spoken arithmetic ("two plus three"), which goes to the `mental_math`
//! command before any fuzzy matching.
use vstd::prelude::*;
use crate::command::{first_with_id, get_command_by_id, has_id, JCommand, JCommandsList};
use crate::text::{
    chars_eq_str, chars_of, contains_char, contains_str, contains_sub, is_alphanumeric,
    is_digit, spec_is_alphanumeric, spec_to_lowercase, split_whitespace, split_ws, str_eq, strip,
    lemma_strip_back_stop, lemma_strip_front_stop, string_from_range, to_lowercase,
};

verus! {

/// Russian number words.
pub open spec fn ru_num_word(w: Seq<char>) -> bool {
    ||| w == "ноль"@ ||| w == "один"@ ||| w == "одна"@ ||| w == "два"@ ||| w == "две"@
    ||| w == "три"@ ||| w == "четыре"@ ||| w == "пять"@ ||| w == "шесть"@ ||| w == "семь"@
    ||| w == "восемь"@ ||| w == "девять"@ ||| w == "десять"@ ||| w == "одиннадцать"@
    ||| w == "двенадцать"@ ||| w == "тринадцать"@ ||| w == "четырнадцать"@
    ||| w == "пятнадцать"@ ||| w == "шестнадцать"@ ||| w == "семнадцать"@
    ||| w == "восемнадцать"@ ||| w == "девятнадцать"@ ||| w == "двадцать"@
    ||| w == "тридцать"@ ||| w == "сорок"@ ||| w == "пятьдесят"@ ||| w == "шестьдесят"@
    ||| w == "семьдесят"@ ||| w == "восемьдесят"@ ||| w == "девяносто"@ ||| w == "сто"@
    ||| w == "двести"@ ||| w == "триста"@ ||| w == "четыреста"@ ||| w == "тысяча"@
    ||| w == "тысячи"@ ||| w == "тысяч"@
}

/// English number words.
pub open spec fn en_num_word(w: Seq<char>) -> bool {
    ||| w == "zero"@ ||| w == "one"@ ||| w == "two"@ ||| w == "three"@ ||| w == "four"@
    ||| w == "five"@ ||| w == "six"@ ||| w == "seven"@ ||| w == "eight"@ ||| w == "nine"@
    ||| w == "ten"@ ||| w == "eleven"@ ||| w == "twelve"@ ||| w == "thirteen"@
    ||| w == "fourteen"@ ||| w == "fifteen"@ ||| w == "sixteen"@ ||| w == "seventeen"@
    ||| w == "eighteen"@ ||| w == "nineteen"@ ||| w == "twenty"@ ||| w == "thirty"@
    ||| w == "forty"@ ||| w == "fifty"@ ||| w == "sixty"@ ||| w == "seventy"@
    ||| w == "eighty"@ ||| w == "ninety"@ ||| w == "hundred"@
}

fn is_ru_num_word(w: &Vec<char>) -> (r: bool)
    ensures
        r == ru_num_word(w@),
{
    chars_eq_str(w, "ноль") || chars_eq_str(w, "один") || chars_eq_str(w, "одна")
        || chars_eq_str(w, "два") || chars_eq_str(w, "две") || chars_eq_str(w, "три")
        || chars_eq_str(w, "четыре") || chars_eq_str(w, "пять") || chars_eq_str(w, "шесть")
        || chars_eq_str(w, "семь") || chars_eq_str(w, "восемь") || chars_eq_str(w, "девять")
        || chars_eq_str(w, "десять") || chars_eq_str(w, "одиннадцать")
        || chars_eq_str(w, "двенадцать") || chars_eq_str(w, "тринадцать")
        || chars_eq_str(w, "четырнадцать") || chars_eq_str(w, "пятнадцать")
        || chars_eq_str(w, "шестнадцать") || chars_eq_str(w, "семнадцать")
        || chars_eq_str(w, "восемнадцать") || chars_eq_str(w, "девятнадцать")
        || chars_eq_str(w, "двадцать") || chars_eq_str(w, "тридцать")
        || chars_eq_str(w, "сорок") || chars_eq_str(w, "пятьдесят")
        || chars_eq_str(w, "шестьдесят") || chars_eq_str(w, "семьдесят")
        || chars_eq_str(w, "восемьдесят") || chars_eq_str(w, "девяносто")
        || chars_eq_str(w, "сто") || chars_eq_str(w, "двести") || chars_eq_str(w, "триста")
        || chars_eq_str(w, "четыреста") || chars_eq_str(w, "тысяча")
        || chars_eq_str(w, "тысячи") || chars_eq_str(w, "тысяч")
}

fn is_en_num_word(w: &Vec<char>) -> (r: bool)
    ensures
        r == en_num_word(w@),
{
    chars_eq_str(w, "zero") || chars_eq_str(w, "one") || chars_eq_str(w, "two")
        || chars_eq_str(w, "three") || chars_eq_str(w, "four") || chars_eq_str(w, "five")
        || chars_eq_str(w, "six") || chars_eq_str(w, "seven") || chars_eq_str(w, "eight")
        || chars_eq_str(w, "nine") || chars_eq_str(w, "ten") || chars_eq_str(w, "eleven")
        || chars_eq_str(w, "twelve") || chars_eq_str(w, "thirteen")
        || chars_eq_str(w, "fourteen") || chars_eq_str(w, "fifteen")
        || chars_eq_str(w, "sixteen") || chars_eq_str(w, "seventeen")
        || chars_eq_str(w, "eighteen") || chars_eq_str(w, "nineteen")
        || chars_eq_str(w, "twenty") || chars_eq_str(w, "thirty") || chars_eq_str(w, "forty")
        || chars_eq_str(w, "fifty") || chars_eq_str(w, "sixty") || chars_eq_str(w, "seventy")
        || chars_eq_str(w, "eighty") || chars_eq_str(w, "ninety")
        || chars_eq_str(w, "hundred")
}

/// Characters trimmed off both ends of a token: all but alphanumerics and `-`.
pub open spec fn not_word_char() -> spec_fn(char) -> bool {
    |c: char| !(spec_is_alphanumeric(c) || c == '-')
}

/// The token with surrounding punctuation removed.
pub open spec fn token_core(word: Seq<char>) -> Seq<char> {
    strip(word, not_word_char())
}

pub open spec fn all_digits(w: Seq<char>) -> bool {
    forall|i: int| 0 <= i < w.len() ==> is_digit(#[trigger] w[i])
}

/// The number words of the language `lang` (both lists for other languages).
pub open spec fn num_word_in(w: Seq<char>, lang: Seq<char>) -> bool {
    if lang == "ru"@ {
        ru_num_word(w)
    } else if lang == "en"@ {
        en_num_word(w)
    } else {
        ru_num_word(w) || en_num_word(w)
    }
}

/// The token reads as a number: digits, or a number word of `lang`.
pub open spec fn number_like(word: Seq<char>, lang: Seq<char>) -> bool {
    let w = token_core(word);
    if w.len() == 0 {
        false
    } else if all_digits(w) {
        true
    } else {
        num_word_in(spec_to_lowercase(w), lang)
    }
}

fn token_core_bounds(v: &Vec<char>) -> (r: (usize, usize))
    ensures
        r.0 <= r.1 <= v@.len(),
        v@.subrange(r.0 as int, r.1 as int) == token_core(v@),
{
    let ghost p = not_word_char();
    let mut lo: usize = 0;
    while lo < v.len() && !(is_alphanumeric(v[lo]) || v[lo] == '-')
        invariant
            lo <= v@.len(),
            p == not_word_char(),
            forall|i: int| 0 <= i < lo ==> p(#[trigger] v@[i]),
        decreases v@.len() - lo,
    {
        lo += 1;
    }
    proof {
        lemma_strip_front_stop(v@, p, lo as int);
    }
    let ghost front = v@.skip(lo as int);
    let mut hi: usize = v.len();
    while hi > lo && !(is_alphanumeric(v[hi - 1]) || v[hi - 1] == '-')
        invariant
            lo <= hi <= v@.len(),
            p == not_word_char(),
            front == v@.skip(lo as int),
            forall|i: int| hi <= i < v@.len() ==> p(#[trigger] v@[i]),
        decreases hi,
    {
        hi -= 1;
    }
    proof {
        let k = hi - lo;
        assert forall|i: int| k <= i < front.len() implies p(#[trigger] front[i]) by {
            assert(front[i] == v@[i + lo]);
        }
        if k > 0 {
            assert(front[k - 1] == v@[hi - 1]);
        }
        lemma_strip_back_stop(front, p, k);
        assert(front.take(k) =~= v@.subrange(lo as int, hi as int));
    }
    (lo, hi)
}

fn is_num_word_in(w: &Vec<char>, lang: &str) -> (r: bool)
    ensures
        r == num_word_in(w@, lang@),
{
    if str_eq(lang, "ru") {
        is_ru_num_word(w)
    } else if str_eq(lang, "en") {
        is_en_num_word(w)
    } else {
        is_ru_num_word(w) || is_en_num_word(w)
    }
}

fn number_like_chars(word: &Vec<char>, lang: &str) -> (r: bool)
    ensures
        r == number_like(word@, lang@),
{
    let (lo, hi) = token_core_bounds(word);
    if lo == hi {
        return false;
    }
    let ghost w = word@.subrange(lo as int, hi as int);
    let mut i = lo;
    let mut digits = true;
    while i < hi
        invariant
            lo <= i <= hi <= word@.len(),
            w == word@.subrange(lo as int, hi as int),
            digits == (forall|j: int| lo <= j < i ==> is_digit(#[trigger] word@[j])),
        decreases hi - i,
    {
        let c = word[i];
        digits = digits && '0' <= c && c <= '9';
        i += 1;
    }
    assert(digits == all_digits(w)) by {
        if digits {
            assert forall|j: int| 0 <= j < w.len() implies is_digit(#[trigger] w[j]) by {
                assert(w[j] == word@[j + lo]);
            }
        } else {
            let j = choose|j: int| lo <= j < hi && !is_digit(#[trigger] word@[j]);
            assert(w[j - lo] == word@[j]);
        }
    }
    if digits {
        return true;
    }
    let core = string_from_range(word, lo, hi);
    let lower = to_lowercase(core.as_str());
    let lv = chars_of(lower.as_str());
    is_num_word_in(&lv, lang)
}

/// Whether `word` reads as a number in `lang`: once stripped of surrounding characters
/// that are neither alphanumeric nor `-`, it is all ASCII digits or, lowercased, a number
/// word of that language (of either language when `lang` is neither `ru` nor `en`).
pub fn token_is_number_like(word: &str, lang: &str) -> (r: bool)
    ensures
        r == number_like(word@, lang@),
{
    let v = chars_of(word);
    number_like_chars(&v, lang)
}

/// The number of words of `words` that read as numbers.
pub open spec fn count_number_like(words: Seq<Seq<char>>, lang: Seq<char>) -> nat
    decreases words.len(),
{
    if words.len() == 0 {
        0
    } else {
        count_number_like(words.drop_last(), lang) + if number_like(words.last(), lang) {
            1nat
        } else {
            0nat
        }
    }
}

pub open spec fn has_ascii_digit(s: Seq<char>) -> bool {
    exists|i: int| 0 <= i < s.len() && is_digit(#[trigger] s[i])
}

/// A written arithmetic expression: a digit and an operator sign.
pub open spec fn has_ascii_expr(s: Seq<char>) -> bool {
    has_ascii_digit(s) && (s.contains('+') || s.contains('*') || s.contains('/') || s.contains(
        '×',
    ) || s.contains('÷'))
}

/// A spoken Russian operator.
pub open spec fn has_op_ru(s: Seq<char>) -> bool {
    ||| contains_sub(s, "плюс"@)
    ||| contains_sub(s, "минус"@)
    ||| contains_sub(s, "умнож"@)
    ||| (contains_sub(s, "раздели"@) && contains_sub(s, " на"@))
    ||| (contains_sub(s, "подели"@) && contains_sub(s, " на"@))
}

/// A spoken English operator.
pub open spec fn has_op_en(s: Seq<char>) -> bool {
    ||| contains_sub(s, "plus"@)
    ||| contains_sub(s, "minus"@)
    ||| contains_sub(s, "times"@)
    ||| contains_sub(s, "multiplied"@)
    ||| contains_sub(s, "divide"@)
    ||| contains_sub(s, "divided"@)
    ||| contains_sub(s, " over "@)
}

/// A spoken operator of `lang` (of either language when `lang` is neither `ru` nor `en`).
pub open spec fn has_op(s: Seq<char>, lang: Seq<char>) -> bool {
    if lang == "ru"@ {
        has_op_ru(s)
    } else if lang == "en"@ {
        has_op_en(s)
    } else {
        has_op_ru(s) || has_op_en(s)
    }
}

/// The phrase is arithmetic: a written expression, or a spoken operator with at least two
/// number-like words.
pub open spec fn is_mental_math(s: Seq<char>, lang: Seq<char>) -> bool {
    if has_ascii_expr(s) {
        true
    } else if !has_op(s, lang) {
        false
    } else {
        count_number_like(split_ws(s), lang) >= 2
    }
}

fn has_digit_exec(v: &Vec<char>) -> (r: bool)
    ensures
        r == has_ascii_digit(v@),
{
    let mut i: usize = 0;
    while i < v.len()
        invariant
            i <= v@.len(),
            forall|j: int| 0 <= j < i ==> !is_digit(#[trigger] v@[j]),
        decreases v@.len() - i,
    {
        if '0' <= v[i] && v[i] <= '9' {
            return true;
        }
        i += 1;
    }
    false
}

fn has_op_ru_exec(v: &Vec<char>) -> (r: bool)
    ensures
        r == has_op_ru(v@),
{
    contains_str(v, "плюс") || contains_str(v, "минус") || contains_str(v, "умнож") || (
    contains_str(v, "раздели") && contains_str(v, " на")) || (contains_str(v, "подели")
        && contains_str(v, " на"))
}

fn has_op_en_exec(v: &Vec<char>) -> (r: bool)
    ensures
        r == has_op_en(v@),
{
    contains_str(v, "plus") || contains_str(v, "minus") || contains_str(v, "times")
        || contains_str(v, "multiplied") || contains_str(v, "divide") || contains_str(
        v,
        "divided",
    ) || contains_str(v, " over ")
}

/// Whether `phrase` looks like a spoken or written arithmetic problem in `lang`.
pub fn looks_like_mental_math(phrase: &str, lang: &str) -> (r: bool)
    ensures
        r == is_mental_math(phrase@, lang@),
{
    let v = chars_of(phrase);
    let has_digit = has_digit_exec(&v);
    let ascii_expr = has_digit && (contains_char(&v, '+') || contains_char(&v, '*')
        || contains_char(&v, '/') || contains_char(&v, '×') || contains_char(&v, '÷'));
    if ascii_expr {
        return true;
    }
    let op = if str_eq(lang, "ru") {
        has_op_ru_exec(&v)
    } else if str_eq(lang, "en") {
        has_op_en_exec(&v)
    } else {
        has_op_ru_exec(&v) || has_op_en_exec(&v)
    };
    if !op {
        return false;
    }
    let words = split_whitespace(&v);
    let ghost ws = words@.map_values(|w: Vec<char>| w@);
    let mut count: usize = 0;
    let mut i: usize = 0;
    while i < words.len()
        invariant
            i <= words@.len(),
            ws == words@.map_values(|w: Vec<char>| w@),
            count == count_number_like(ws.take(i as int), lang@),
            count <= i,
        decreases words@.len() - i,
    {
        assert(ws.take(i + 1).drop_last() =~= ws.take(i as int));
        if number_like_chars(&words[i], lang) {
            count += 1;
        }
        i += 1;
    }
    assert(ws.take(words@.len() as int) =~= ws);
    count >= 2
}

/// The `mental_math` command, when `phrase` looks like arithmetic: the first command with
/// that id, with its pack's path. `None` when the phrase is no arithmetic or there is no
/// such command.
pub fn try_fetch_mental_math<'a>(phrase: &str, lang: &str, commands: &'a [JCommandsList]) -> (r:
    Option<(&'a String, &'a JCommand)>)
    ensures
        !is_mental_math(phrase@, lang@) ==> r is None,
        is_mental_math(phrase@, lang@) ==> (r is None <==> !has_id(commands@, "mental_math"@)),
        r matches Some((p, c)) ==> exists|i: int, j: int|
            first_with_id(commands@, "mental_math"@, i, j) && *p == commands@[i].path && *c
                == commands@[i].commands@[j],
{
    if !looks_like_mental_math(phrase, lang) {
        return None;
    }
    get_command_by_id(commands, "mental_math")
}

proof fn lemma_count_is_filter(ws: Seq<Seq<char>>, lang: Seq<char>)
    ensures
        count_number_like(ws, lang) == ws.filter(|w: Seq<char>| number_like(w, lang)).len(),
    decreases ws.len(),
{
    if ws.len() == 0 {
        reveal(Seq::filter);
    } else {
        lemma_count_is_filter(ws.drop_last(), lang);
        assert(ws =~= ws.drop_last().push(ws.last()));
        ws.drop_last().lemma_filter_push(ws.last(), |w: Seq<char>| number_like(w, lang));
    }
}

/// Which phrases are arithmetic. One with an ASCII digit and one of the signs `+ * / × ÷`
/// is, in every language. Any other is arithmetic exactly when it holds a spoken operator of
/// its language and at least two of its whitespace-separated words read as numbers. The
/// Russian operators are `плюс`, `минус`, `умнож`, and `раздели` or `подели` together with
/// ` на`; the English ones `plus`, `minus`, `times`, `multiplied`, `divide`, `divided` and
/// ` over `; a language other than these two takes the operators of both.
pub proof fn law_arithmetic_phrases(s: Seq<char>, lang: Seq<char>)
    ensures
        ({
            let digit = exists|i: int| 0 <= i < s.len() && '0' <= #[trigger] s[i] && s[i] <= '9';
            let sign = s.contains('+') || s.contains('*') || s.contains('/') || s.contains('×')
                || s.contains('÷');
            let ru = contains_sub(s, "плюс"@) || contains_sub(s, "минус"@) || contains_sub(
                s,
                "умнож"@,
            ) || ((contains_sub(s, "раздели"@) || contains_sub(s, "подели"@)) && contains_sub(
                s,
                " на"@,
            ));
            let en = contains_sub(s, "plus"@) || contains_sub(s, "minus"@) || contains_sub(
                s,
                "times"@,
            ) || contains_sub(s, "multiplied"@) || contains_sub(s, "divide"@) || contains_sub(
                s,
                "divided"@,
            ) || contains_sub(s, " over "@);
            let spoken = if lang == "ru"@ {
                ru
            } else if lang == "en"@ {
                en
            } else {
                ru || en
            };
            let numbers = split_ws(s).filter(|w: Seq<char>| number_like(w, lang)).len();
            &&& (digit && sign) ==> is_mental_math(s, lang)
            &&& !(digit && sign) ==> (is_mental_math(s, lang) <==> (spoken && numbers >= 2))
        }),
{
    lemma_count_is_filter(split_ws(s), lang);
}

/// How a token reads as a number. It is first stripped of the characters at both ends that
/// are neither alphanumeric nor `-`; what is left, when it is all ASCII digits, is a number in
/// every language; in a language other than `ru` and `en` a token is a number exactly when
/// it is one in Russian or in English.
pub proof fn law_number_tokens(word: Seq<char>, lang: Seq<char>)
    ensures
        exists|a: int, b: int|
            {
                &&& 0 <= a <= b <= word.len()
                &&& token_core(word) == word.subrange(a, b)
                &&& forall|i: int|
                    0 <= i < a ==> !(spec_is_alphanumeric(#[trigger] word[i]) || word[i] == '-')
                &&& forall|i: int|
                    b <= i < word.len() ==> !(spec_is_alphanumeric(#[trigger] word[i]) || word[i]
                        == '-')
                &&& a < b ==> (spec_is_alphanumeric(word[a]) || word[a] == '-') && (
                spec_is_alphanumeric(word[b - 1]) || word[b - 1] == '-')
            },
        token_core(word).len() > 0 && (forall|i: int|
            0 <= i < token_core(word).len() ==> '0' <= #[trigger] token_core(word)[i]
                && token_core(word)[i] <= '9') ==> number_like(word, lang),
        token_core(word).len() == 0 ==> !number_like(word, lang),
        lang != "ru"@ && lang != "en"@ ==> (number_like(word, lang) <==> (number_like(word, "ru"@)
            || number_like(word, "en"@))),
{
    crate::text::law_strip(word, not_word_char());
    reveal_strlit("ru");
    reveal_strlit("en");
    assert("ru"@[0] != "en"@[0]);
}

} // verus!
