//! The expansion of URI templates (RFC 6570).
use crate::text::{first_index, lemma_first_index_is};
use uritemplate::UriTemplate;
use vstd::prelude::*;
use vstd::string::*;
use vstd::utf8::{encode_utf8, is_ascii_chars, is_char_boundary};

verus! {

/// The template type of the `uritemplate` crate.
#[verifier::external_type_specification]
#[verifier::external_body]
pub struct ExUriTemplate(UriTemplate);

/// The text that a template was read from.
pub uninterp spec fn template_source(template: UriTemplate) -> Seq<char>;

/// The values of a template's variables, by their names.
pub uninterp spec fn template_values(template: UriTemplate) -> Map<Seq<char>, Seq<char>>;

/// What a template with the text `source` expands to, with `values` for its variables.
pub uninterp spec fn uri_expansion(source: Seq<char>, values: Map<Seq<char>, Seq<char>>) -> Seq<
    char,
>;

/// No values at all.
pub open spec fn no_values() -> Map<Seq<char>, Seq<char>> {
    Map::empty()
}

/// The lists of variables in a template: what stands between a `{` and the next `}`.
pub open spec fn variable_lists(source: Seq<char>) -> Seq<Seq<char>>
    decreases source.len(),
{
    let open = first_index(source, '{') as int;
    let rest = source.skip(open + 1);
    let close = first_index(rest, '}') as int;
    if open >= source.len() || close >= rest.len() {
        Seq::empty()
    } else {
        seq![rest.take(close)] + variable_lists(rest.skip(close + 1))
    }
}

/// The parts of a text between separators.
pub open spec fn parts(text: Seq<char>, separator: char) -> Seq<Seq<char>>
    decreases text.len(),
{
    let at = first_index(text, separator) as int;
    if at >= text.len() {
        seq![text]
    } else {
        seq![text.take(at)] + parts(text.skip(at + 1), separator)
    }
}

/// Whether `c` is one of the operators that a list of variables may begin with.
pub open spec fn is_operator(c: char) -> bool {
    c == '+' || c == '.' || c == '/' || c == ';' || c == '?' || c == '&' || c == '#'
}

/// The variables of a list, with their modifiers.
pub open spec fn variables(list: Seq<char>) -> Seq<Seq<char>> {
    parts(
        if list.len() > 0 && is_operator(list[0]) {
            list.skip(1)
        } else {
            list
        },
        ',',
    )
}

/// Whether a text is made of digits.
pub open spec fn are_digits(text: Seq<char>) -> bool {
    forall|i: int| 0 <= i < text.len() ==> '0' <= #[trigger] text[i] <= '9'
}

/// The number that digits stand for.
pub open spec fn number(digits: Seq<char>) -> nat
    decreases digits.len(),
{
    if digits.len() == 0 {
        0
    } else {
        number(digits.drop_last()) * 10 + (digits.last() as nat - '0' as nat) as nat
    }
}

/// The number of bytes that a prefix modifier keeps: what follows its colon, or 9999 where that
/// is no 16-bit number.
pub open spec fn prefix_length(modifier: Seq<char>) -> nat {
    let digits = if modifier.len() > 1 && modifier[0] == '+' {
        modifier.skip(1)
    } else {
        modifier
    };
    if digits.len() > 0 && are_digits(digits) && number(digits) <= u16::MAX {
        number(digits)
    } else {
        9999
    }
}

/// Whether the first `n` bytes of a text, if it has more, end between two characters.
pub open spec fn is_cut_between_characters(text: Seq<char>, n: nat) -> bool {
    n >= encode_utf8(text).len() || is_char_boundary(encode_utf8(text), n as int)
}

/// Whether the prefix modifier of a variable, if it has one, cuts its value between two
/// characters.
pub open spec fn is_variable_cut_well(
    variable: Seq<char>,
    values: Map<Seq<char>, Seq<char>>,
) -> bool {
    let colon = first_index(variable, ':') as int;
    let name = variable.take(colon);
    ||| colon >= variable.len()
    ||| variable.last() == '*'
    ||| !values.contains_key(name)
    ||| is_cut_between_characters(values[name], prefix_length(variable.skip(colon + 1)))
}

/// Whether the lists of variables are ASCII.
pub open spec fn is_readable(source: Seq<char>) -> bool {
    forall|i: int|
        0 <= i < variable_lists(source).len() ==> is_ascii_chars(
            #[trigger] variable_lists(source)[i],
        )
}

/// Whether every prefix modifier cuts the value between two characters.
pub open spec fn are_values_cut_well(
    source: Seq<char>,
    values: Map<Seq<char>, Seq<char>>,
) -> bool {
    forall|i: int, j: int|
        0 <= i < variable_lists(source).len() && 0 <= j < variables(
            variable_lists(source)[i],
        ).len() ==> is_variable_cut_well(
            #[trigger] variables(variable_lists(source)[i])[j],
            values,
        )
}

/// Calls `UriTemplate::new`. The template has the text it was read from, and no values.
///
/// `UriTemplate::new` panics on a list of variables that is not ASCII.
#[verifier::external_body]
fn read_template(source: &str) -> (template: UriTemplate)
    requires
        is_readable(source@),
    ensures
        template_source(template) == source@,
        template_values(template) == no_values(),
{
    UriTemplate::new(source)
}

/// Calls `UriTemplate::set` with a text for the value. It gives the variable that value.
#[verifier::external_body]
fn set_value(template: &mut UriTemplate, name: &str, value: &str)
    ensures
        template_source(*final(template)) == template_source(*old(template)),
        template_values(*final(template)) == template_values(*old(template)).insert(name@, value@),
{
    template.set(name, value);
}

/// Calls `UriTemplate::build`, whose result is a function of the template's text and of the
/// values of its variables. What the expansion is for given values is not stated.
///
/// `UriTemplate::build` counts the length of a prefix in bytes, and panics where such a prefix
/// ends within a character.
#[verifier::external_body]
fn build_uri(template: &UriTemplate) -> (uri: String)
    requires
        are_values_cut_well(template_source(*template), template_values(*template)),
    ensures
        uri@ == uri_expansion(template_source(*template), template_values(*template)),
{
    template.build()
}

/// The values of four variables.
pub open spec fn four_values(values: [(&str, &str); 4]) -> Map<Seq<char>, Seq<char>> {
    no_values().insert(values[0].0@, values[0].1@).insert(values[1].0@, values[1].1@).insert(
        values[2].0@,
        values[2].1@,
    ).insert(values[3].0@, values[3].1@)
}

/// Expands a template with values for four variables.
pub fn expand(source: &str, values: [(&str, &str); 4]) -> (uri: String)
    requires
        is_readable(source@),
        are_values_cut_well(source@, four_values(values)),
    ensures
        uri@ == uri_expansion(source@, four_values(values)),
{
    let mut template = read_template(source);
    set_value(&mut template, values[0].0, values[0].1);
    set_value(&mut template, values[1].0, values[1].1);
    set_value(&mut template, values[2].0, values[2].1);
    set_value(&mut template, values[3].0, values[3].1);
    build_uri(&template)
}

/// The texts of character lists.
spec fn texts(lists: Seq<Vec<char>>) -> Seq<Seq<char>> {
    lists.map_values(|list: Vec<char>| list@)
}

fn characters(text: &str) -> (list: Vec<char>)
    ensures
        list@ == text@,
{
    let mut list: Vec<char> = Vec::new();
    for c in it: text.chars()
        invariant
            it.seq() == text@,
            list@ == text@.take(it.index() as int),
    {
        list.push(c);
        proof {
            assert(list@ =~= text@.take(it.index() + 1));
        }
    }
    proof {
        assert(text@.take(text@.len() as int) =~= text@);
    }
    list
}

fn find_from(list: &Vec<char>, from: usize, c: char) -> (at: usize)
    requires
        from <= list@.len(),
    ensures
        from <= at <= list@.len(),
        at == from + first_index(list@.skip(from as int), c),
{
    let mut at: usize = from;
    while at < list.len() && list[at] != c
        invariant
            from <= at <= list@.len(),
            forall|i: int| from <= i < at ==> list@[i] != c,
        decreases list@.len() - at,
    {
        at = at + 1;
    }
    proof {
        lemma_first_index_is(list@.skip(from as int), c, at - from);
    }
    at
}

fn piece(list: &Vec<char>, from: usize, to: usize) -> (part: Vec<char>)
    requires
        from <= to <= list@.len(),
    ensures
        part@ == list@.subrange(from as int, to as int),
{
    let mut part: Vec<char> = Vec::new();
    let mut i: usize = from;
    while i < to
        invariant
            from <= i <= to <= list@.len(),
            part@ == list@.subrange(from as int, i as int),
        decreases to - i,
    {
        part.push(list[i]);
        i = i + 1;
        proof {
            assert(part@ =~= list@.subrange(from as int, i as int));
        }
    }
    part
}

fn split_lists(source: &Vec<char>) -> (lists: Vec<Vec<char>>)
    ensures
        texts(lists@) == variable_lists(source@),
{
    let mut lists: Vec<Vec<char>> = Vec::new();
    let mut from: usize = 0;
    proof {
        assert(source@.skip(0) =~= source@);
        assert(texts(lists@) + variable_lists(source@) =~= variable_lists(source@));
    }
    loop
        invariant
            from <= source@.len(),
            texts(lists@) + variable_lists(source@.skip(from as int)) == variable_lists(source@),
        decreases source@.len() - from,
    {
        let ghost rest = source@.skip(from as int);
        let open = find_from(source, from, '{');
        if open == source.len() {
            proof {
                assert(variable_lists(rest) =~= Seq::empty());
                assert(texts(lists@) + variable_lists(rest) =~= texts(lists@));
            }
            return lists;
        }
        let close = find_from(source, open + 1, '}');
        proof {
            assert(rest.skip(open - from + 1) =~= source@.skip(open + 1));
        }
        if close == source.len() {
            proof {
                assert(variable_lists(rest) =~= Seq::empty());
                assert(texts(lists@) + variable_lists(rest) =~= texts(lists@));
            }
            return lists;
        }
        let ghost before = texts(lists@);
        lists.push(piece(source, open + 1, close));
        proof {
            let after = source@.skip(open + 1);
            let width = close - (open + 1);
            assert(after.take(width) =~= source@.subrange(open + 1, close as int));
            assert(after.skip(width + 1) =~= source@.skip(close + 1));
            assert(texts(lists@) =~= before + seq![after.take(width)]);
            assert(before + (seq![after.take(width)] + variable_lists(source@.skip(close + 1)))
                =~= texts(lists@) + variable_lists(source@.skip(close + 1)));
        }
        from = close + 1;
    }
}

fn split_parts(list: &Vec<char>, start: usize, separator: char) -> (lists: Vec<Vec<char>>)
    requires
        start <= list@.len(),
    ensures
        texts(lists@) == parts(list@.skip(start as int), separator),
{
    let mut lists: Vec<Vec<char>> = Vec::new();
    let mut from: usize = start;
    let ghost whole = parts(list@.skip(start as int), separator);
    proof {
        assert(texts(lists@) + whole =~= whole);
    }
    loop
        invariant
            start <= from <= list@.len(),
            whole == parts(list@.skip(start as int), separator),
            texts(lists@) + parts(list@.skip(from as int), separator) == whole,
        decreases list@.len() - from,
    {
        let ghost rest = list@.skip(from as int);
        let ghost before = texts(lists@);
        let at = find_from(list, from, separator);
        lists.push(piece(list, from, at));
        if at == list.len() {
            proof {
                assert(rest =~= list@.subrange(from as int, at as int));
                assert(texts(lists@) =~= before + seq![rest]);
            }
            return lists;
        }
        proof {
            let width = at - from;
            assert(rest.take(width) =~= list@.subrange(from as int, at as int));
            assert(rest.skip(width + 1) =~= list@.skip(at + 1));
            assert(texts(lists@) =~= before + seq![rest.take(width)]);
            assert(before + (seq![rest.take(width)] + parts(list@.skip(at + 1), separator))
                =~= texts(lists@) + parts(list@.skip(at + 1), separator));
        }
        from = at + 1;
    }
}

/// More digits do not make a number smaller.
proof fn lemma_number_grows(digits: Seq<char>, n: int)
    requires
        0 <= n <= digits.len(),
    ensures
        number(digits.take(n)) <= number(digits),
    decreases digits.len(),
{
    if n < digits.len() {
        let init = digits.drop_last();
        lemma_number_grows(init, n);
        assert(init.take(n) =~= digits.take(n));
    } else {
        assert(digits.take(n) =~= digits);
    }
}

fn read_prefix_length(list: &Vec<char>, start: usize) -> (n: u16)
    requires
        start <= list@.len(),
    ensures
        n == prefix_length(list@.skip(start as int)),
{
    let ghost modifier = list@.skip(start as int);
    let from: usize = if list.len() - start > 1 && list[start] == '+' {
        start + 1
    } else {
        start
    };
    let ghost digits = list@.skip(from as int);
    proof {
        if start < list@.len() {
            assert(modifier.skip(1) =~= list@.skip(start + 1));
        }
    }
    if from == list.len() {
        return 9999;
    }
    let mut value: u32 = 0;
    let mut i: usize = from;
    while i < list.len()
        invariant
            from <= i <= list@.len(),
            digits == list@.skip(from as int),
            from < list@.len(),
            value <= u16::MAX,
            value == number(digits.take(i - from)),
            are_digits(digits.take(i - from)),
            start <= from,
            modifier == list@.skip(start as int),
            digits == if modifier.len() > 1 && modifier[0] == '+' {
                modifier.skip(1)
            } else {
                modifier
            },
        decreases list@.len() - i,
    {
        let c = list[i];
        proof {
            assert(digits[i - from] == c);
            assert(digits.take(i - from + 1).drop_last() =~= digits.take(i - from));
        }
        if c < '0' || '9' < c {
            return 9999;
        }
        value = value * 10 + (c as u32 - '0' as u32);
        i = i + 1;
        proof {
            assert(digits.take(i - from).last() == c);
            assert(are_digits(digits.take(i - from)));
        }
        if value > 65535 {
            proof {
                lemma_number_grows(digits, i - from);
            }
            return 9999;
        }
    }
    proof {
        assert(digits.take(list@.len() - from) =~= digits);
    }
    value as u16
}

fn equals(list: &Vec<char>, to: usize, text: &str) -> (answer: bool)
    requires
        to <= list@.len(),
    ensures
        answer == (list@.take(to as int) == text@),
{
    let other = characters(text);
    if other.len() != to {
        return false;
    }
    let mut i: usize = 0;
    while i < to
        invariant
            i <= to <= list@.len(),
            other@ == text@,
            other@.len() == to,
            forall|j: int| 0 <= j < i ==> list@[j] == other@[j],
        decreases to - i,
    {
        if list[i] != other[i] {
            proof {
                assert(list@.take(to as int)[i as int] != text@[i as int]);
            }
            return false;
        }
        i = i + 1;
    }
    proof {
        assert(list@.take(to as int) =~= text@);
    }
    true
}

/// Finds the value of the variable whose name is the first `to` characters of a list.
fn look_up<'a>(values: &[(&'a str, &'a str); 4], list: &Vec<char>, to: usize) -> (value: Option<
    &'a str,
>)
    requires
        to <= list@.len(),
    ensures
        match value {
            Some(value) => four_values(*values).contains_key(list@.take(to as int)) && value@
                == four_values(*values)[list@.take(to as int)],
            None => !four_values(*values).contains_key(list@.take(to as int)),
        },
{
    if equals(list, to, values[3].0) {
        Some(values[3].1)
    } else if equals(list, to, values[2].0) {
        Some(values[2].1)
    } else if equals(list, to, values[1].0) {
        Some(values[1].1)
    } else if equals(list, to, values[0].0) {
        Some(values[0].1)
    } else {
        None
    }
}

fn is_cut_well(variable: &Vec<char>, values: &[(&str, &str); 4]) -> (answer: bool)
    ensures
        answer == is_variable_cut_well(variable@, four_values(*values)),
{
    proof {
        assert(variable@.skip(0) =~= variable@);
    }
    let colon = find_from(variable, 0, ':');
    if colon == variable.len() || variable[variable.len() - 1] == '*' {
        return true;
    }
    match look_up(values, variable, colon) {
        None => true,
        Some(value) => {
            let n = read_prefix_length(variable, colon + 1) as usize;
            n >= value.as_bytes().len() || value.is_char_boundary(n)
        },
    }
}

fn is_ascii_list(list: &Vec<char>) -> (answer: bool)
    ensures
        answer == is_ascii_chars(list@),
{
    let mut i: usize = 0;
    while i < list.len()
        invariant
            i <= list@.len(),
            forall|j: int| 0 <= j < i ==> '\0' <= #[trigger] list@[j] <= '\u{7f}',
        decreases list@.len() - i,
    {
        let c = list[i];
        if c < '\0' || '\u{7f}' < c {
            return false;
        }
        i = i + 1;
    }
    true
}

/// Tells whether a template can be expanded with these values.
pub fn can_expand(source: &str, values: &[(&str, &str); 4]) -> (answer: bool)
    ensures
        answer == (is_readable(source@) && are_values_cut_well(source@, four_values(*values))),
{
    let lists = split_lists(&characters(source));
    let ghost expected = variable_lists(source@);
    let mut i: usize = 0;
    while i < lists.len()
        invariant
            i <= lists@.len(),
            expected == variable_lists(source@),
            texts(lists@) == expected,
            forall|k: int| 0 <= k < i ==> is_ascii_chars(#[trigger] expected[k]),
            forall|k: int, j: int|
                0 <= k < i && 0 <= j < variables(expected[k]).len() ==> is_variable_cut_well(
                    #[trigger] variables(expected[k])[j],
                    four_values(*values),
                ),
        decreases lists@.len() - i,
    {
        let list = &lists[i];
        proof {
            assert(texts(lists@)[i as int] == list@);
        }
        if !is_ascii_list(list) {
            return false;
        }
        let start: usize = if list.len() > 0 && is_operator_char(list[0]) {
            1
        } else {
            0
        };
        let variables_list = split_parts(list, start, ',');
        proof {
            assert(list@.skip(0) =~= list@);
            assert(texts(variables_list@) == variables(expected[i as int]));
        }
        let mut j: usize = 0;
        while j < variables_list.len()
            invariant
                j <= variables_list@.len(),
                i < lists@.len(),
                expected == variable_lists(source@),
                texts(lists@) == expected,
                texts(variables_list@) == variables(expected[i as int]),
                forall|k: int|
                    0 <= k < j ==> is_variable_cut_well(
                        #[trigger] variables(expected[i as int])[k],
                        four_values(*values),
                    ),
            decreases variables_list@.len() - j,
        {
            proof {
                assert(texts(variables_list@)[j as int] == variables_list@[j as int]@);
            }
            if !is_cut_well(&variables_list[j], values) {
                return false;
            }
            j = j + 1;
        }
        i = i + 1;
    }
    true
}

fn is_operator_char(c: char) -> (answer: bool)
    ensures
        answer == is_operator(c),
{
    c == '+' || c == '.' || c == '/' || c == ';' || c == '?' || c == '&' || c == '#'
}

/// The lists of a template are found one after the other: the first stands between the first `{`
/// and the next `}`, and the others are those of what follows.
pub proof fn lists_stand_between_braces(before: Seq<char>, list: Seq<char>, after: Seq<char>)
    requires
        !before.contains('{'),
        !list.contains('}'),
    ensures
        variable_lists(before + seq!['{'] + list + seq!['}'] + after) == seq![list]
            + variable_lists(after),
{
    let source = before + seq!['{'] + list + seq!['}'] + after;
    let open = before.len() as int;
    assert forall|i: int| 0 <= i < open implies source[i] != '{' by {
        assert(source[i] == before[i]);
        assert(before.contains(before[i]));
    }
    lemma_first_index_is(source, '{', open);
    let rest = source.skip(open + 1);
    assert(rest =~= list + seq!['}'] + after);
    let close = list.len() as int;
    assert forall|i: int| 0 <= i < close implies rest[i] != '}' by {
        assert(rest[i] == list[i]);
        assert(list.contains(list[i]));
    }
    lemma_first_index_is(rest, '}', close);
    assert(rest.take(close) =~= list);
    assert(rest.skip(close + 1) =~= after);
}

/// A text without a `{`, or without a `}` after the first one, has no lists.
pub proof fn text_without_braces_has_no_lists(before: Seq<char>, rest: Seq<char>)
    requires
        !before.contains('{'),
        !rest.contains('}'),
    ensures
        variable_lists(before) == Seq::<Seq<char>>::empty(),
        variable_lists(before + seq!['{'] + rest) == Seq::<Seq<char>>::empty(),
{
    let source = before + seq!['{'] + rest;
    let open = before.len() as int;
    assert forall|i: int| 0 <= i < open implies before[i] != '{' by {
        assert(before.contains(before[i]));
    }
    lemma_first_index_is(before, '{', open);
    assert forall|i: int| 0 <= i < open implies source[i] != '{' by {
        assert(source[i] == before[i]);
    }
    lemma_first_index_is(source, '{', open);
    assert(source.skip(open + 1) =~= rest);
    assert forall|i: int| 0 <= i < rest.len() implies rest[i] != '}' by {
        assert(rest.contains(rest[i]));
    }
    lemma_first_index_is(rest, '}', rest.len() as int);
}

/// A text is parted at every separator and nowhere else.
pub proof fn parts_stand_between_separators(head: Seq<char>, rest: Seq<char>, separator: char)
    requires
        !head.contains(separator),
    ensures
        parts(head, separator) == seq![head],
        parts(head + seq![separator] + rest, separator) == seq![head] + parts(rest, separator),
{
    let text = head + seq![separator] + rest;
    let at = head.len() as int;
    assert forall|i: int| 0 <= i < at implies head[i] != separator by {
        assert(head.contains(head[i]));
    }
    lemma_first_index_is(head, separator, at);
    assert forall|i: int| 0 <= i < at implies text[i] != separator by {
        assert(text[i] == head[i]);
    }
    lemma_first_index_is(text, separator, at);
    assert(text.take(at) =~= head);
    assert(text.skip(at + 1) =~= rest);
}

/// The variables of a list are its parts between commas, after the operator that it may begin with.
pub proof fn variables_follow_the_operator(c: char, rest: Seq<char>)
    ensures
        variables(Seq::empty()) == parts(Seq::empty(), ','),
        variables(seq![c] + rest) == parts(
            if c == '+' || c == '.' || c == '/' || c == ';' || c == '?' || c == '&' || c == '#' {
                rest
            } else {
                seq![c] + rest
            },
            ',',
        ),
{
    let list = seq![c] + rest;
    assert(list[0] == c);
    assert(list.skip(1) =~= rest);
}

/// Digits are the characters from `0` to `9`, and each further digit counts for a tenth of the one
/// before it.
pub proof fn numbers_are_read_digit_by_digit(digits: Seq<char>, c: char)
    ensures
        are_digits(Seq::empty()),
        are_digits(digits.push(c)) <==> are_digits(digits) && '0' <= c <= '9',
        number(Seq::empty()) == 0,
        '0' <= c <= '9' ==> number(digits.push(c)) == number(digits) * 10 + (c as int - '0' as int),
{
    let pushed = digits.push(c);
    assert(pushed.drop_last() =~= digits);
    if are_digits(pushed) {
        assert forall|i: int| 0 <= i < digits.len() implies '0' <= #[trigger] digits[i]
            <= '9' by {
            assert(pushed[i] == digits[i]);
        }
        assert(pushed[digits.len() as int] == c);
    }
}

/// A prefix modifier keeps as many bytes as its number says, with or without a plus sign before it.
/// One that is no number, or too large a number, keeps 9999.
pub proof fn prefix_keeps_as_many_bytes_as_it_says(digits: Seq<char>)
    ensures
        digits.len() > 0 && are_digits(digits) && number(digits) <= 65535 ==> prefix_length(digits)
            == number(digits) && prefix_length(seq!['+'] + digits) == number(digits),
        digits.len() > 0 && are_digits(digits) && number(digits) > 65535 ==> prefix_length(digits)
            == 9999 && prefix_length(seq!['+'] + digits) == 9999,
        digits.len() > 0 && !are_digits(digits) && digits[0] != '+' ==> prefix_length(digits) == 9999
            && prefix_length(seq!['+'] + digits) == 9999,
        digits.len() == 0 ==> prefix_length(digits) == 9999 && prefix_length(seq!['+'] + digits)
            == 9999,
{
    let signed = seq!['+'] + digits;
    assert(signed.len() > 1 ==> signed.skip(1) =~= digits);
    if digits.len() > 0 && are_digits(digits) {
        assert('0' <= digits[0] <= '9');
    }
    if digits.len() == 0 {
        assert(signed[0] == '+');
        assert(!are_digits(signed)) by {
            assert(!('0' <= signed[0] <= '9'));
        }
    }
}

/// The modifier of a variable is what follows its first colon, and concerns the value of the
/// variable that the text before the colon names. A variable without a colon, or with a final
/// asterisk, has none.
pub proof fn modifier_follows_the_first_colon(
    name: Seq<char>,
    modifier: Seq<char>,
    values: Map<Seq<char>, Seq<char>>,
)
    requires
        !name.contains(':'),
    ensures
        is_variable_cut_well(name, values),
        is_variable_cut_well(name + seq![':'] + modifier, values) <==> {
            ||| modifier.len() > 0 && modifier[modifier.len() - 1] == '*'
            ||| !values.contains_key(name)
            ||| prefix_length(modifier) >= encode_utf8(values[name]).len()
            ||| is_char_boundary(encode_utf8(values[name]), prefix_length(modifier) as int)
        },
{
    let variable = name + seq![':'] + modifier;
    let colon = name.len() as int;
    assert forall|i: int| 0 <= i < colon implies name[i] != ':' by {
        assert(name.contains(name[i]));
    }
    lemma_first_index_is(name, ':', colon);
    assert forall|i: int| 0 <= i < colon implies variable[i] != ':' by {
        assert(variable[i] == name[i]);
    }
    lemma_first_index_is(variable, ':', colon);
    assert(variable.take(colon) =~= name);
    assert(variable.skip(colon + 1) =~= modifier);
}

/// A template can be read exactly where each of its lists is ASCII, and be built exactly where each
/// of the variables of its lists is cut well.
pub proof fn template_is_judged_by_its_lists(
    source: Seq<char>,
    values: Map<Seq<char>, Seq<char>>,
    i: int,
)
    requires
        0 <= i < variable_lists(source).len(),
    ensures
        is_readable(source) ==> is_ascii_chars(variable_lists(source)[i]),
        are_values_cut_well(source, values) ==> forall|j: int|
            0 <= j < variables(variable_lists(source)[i]).len() ==> is_variable_cut_well(
                #[trigger] variables(variable_lists(source)[i])[j],
                values,
            ),
{
}

/// A template whose lists are ASCII can be read, and one whose variables are cut well can be built.
pub proof fn template_with_good_lists_is_good(source: Seq<char>, values: Map<Seq<char>, Seq<char>>)
    ensures
        (forall|i: int|
            0 <= i < variable_lists(source).len() ==> is_ascii_chars(
                #[trigger] variable_lists(source)[i],
            )) ==> is_readable(source),
        (forall|i: int, j: int|
            0 <= i < variable_lists(source).len() && 0 <= j < variables(
                variable_lists(source)[i],
            ).len() ==> is_variable_cut_well(
                #[trigger] variables(variable_lists(source)[i])[j],
                values,
            )) ==> are_values_cut_well(source, values),
{
}

/// A template in ASCII can be expanded with any values in ASCII, whatever its lists are and however
/// long it is.
pub proof fn ascii_template_can_be_expanded(
    source: Seq<char>,
    values: Map<Seq<char>, Seq<char>>,
)
    requires
        is_ascii_chars(source),
        forall|name: Seq<char>| #[trigger]
            values.contains_key(name) ==> is_ascii_chars(values[name]),
    ensures
        is_readable(source),
        are_values_cut_well(source, values),
{
    lemma_ascii_lists(source);
    assert forall|i: int, j: int|
        0 <= i < variable_lists(source).len() && 0 <= j < variables(
            variable_lists(source)[i],
        ).len() implies is_variable_cut_well(
        #[trigger] variables(variable_lists(source)[i])[j],
        values,
    ) by {
        let variable = variables(variable_lists(source)[i])[j];
        let colon = first_index(variable, ':') as int;
        let name = variable.take(colon);
        if values.contains_key(name) {
            lemma_ascii_is_cut_anywhere(values[name], prefix_length(variable.skip(colon + 1)));
        }
    }
}

/// The lists of a text in ASCII are in ASCII.
proof fn lemma_ascii_lists(source: Seq<char>)
    requires
        is_ascii_chars(source),
    ensures
        forall|i: int|
            0 <= i < variable_lists(source).len() ==> is_ascii_chars(
                #[trigger] variable_lists(source)[i],
            ),
    decreases source.len(),
{
    let open = first_index(source, '{') as int;
    let rest = source.skip(open + 1);
    let close = first_index(rest, '}') as int;
    if open < source.len() && close < rest.len() {
        let list = rest.take(close);
        let after = rest.skip(close + 1);
        assert forall|i: int| 0 <= i < list.len() implies '\0' <= #[trigger] list[i]
            <= '\u{7f}' by {
            assert(list[i] == source[open + 1 + i]);
        }
        assert forall|i: int| 0 <= i < after.len() implies '\0' <= #[trigger] after[i]
            <= '\u{7f}' by {
            assert(after[i] == source[open + 1 + close + 1 + i]);
        }
        lemma_ascii_lists(after);
        assert forall|i: int| 0 <= i < variable_lists(source).len() implies is_ascii_chars(
            #[trigger] variable_lists(source)[i],
        ) by {
            if i > 0 {
                assert(variable_lists(source)[i] == variable_lists(after)[i - 1]);
            }
        }
    }
}

/// In ASCII there is a character at every byte.
proof fn lemma_ascii_is_cut_anywhere(text: Seq<char>, n: nat)
    requires
        is_ascii_chars(text),
    ensures
        is_cut_between_characters(text, n),
{
    let bytes = encode_utf8(text);
    if n < bytes.len() {
        vstd::utf8::encode_utf8_valid_utf8(text);
        vstd::utf8::is_ascii_chars_encode_utf8(text);
        assert(text[n as int] as u8 == bytes[n as int]);
        assert('\0' <= text[n as int] <= '\u{7f}');
        vstd::utf8::is_char_boundary_iff_not_is_continuation_byte(bytes, n as int);
    }
}

/// Each of four variables has the value that was given for it last, and no other variable has one.
pub proof fn four_values_are_those_given(values: [(&str, &str); 4], name: Seq<char>)
    ensures
        four_values(values).contains_key(name) <==> name == values[0].0@ || name == values[1].0@
            || name == values[2].0@ || name == values[3].0@,
        name == values[3].0@ ==> four_values(values)[name] == values[3].1@,
        name == values[2].0@ && name != values[3].0@ ==> four_values(values)[name]
            == values[2].1@,
        name == values[1].0@ && name != values[2].0@ && name != values[3].0@ ==> four_values(
            values,
        )[name] == values[1].1@,
        name == values[0].0@ && name != values[1].0@ && name != values[2].0@ && name
            != values[3].0@ ==> four_values(values)[name] == values[0].1@,
{
}

} // verus!
