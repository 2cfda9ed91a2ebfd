//! Choosing one of several options on a plain terminal: the menu shown, and
//! how a typed answer picks an option.
use crate::text::{decimal, decimal_string, parse_usize, parse_usize_str, push_str, str_eq, strs_view, trim, trim_string};
use vstd::prelude::*;

verus! {

/// The lines of a numbered menu, each as `  N. option`, numbered from 1.
pub open spec fn menu_lines(options: Seq<Seq<char>>) -> Seq<char>
    decreases options.len(),
{
    if options.len() == 0 {
        Seq::empty()
    } else {
        menu_lines(options.drop_last()) + "  "@ + decimal(options.len()) + ". "@ + options.last() + "\n"@
    }
}

/// The menu shown before an answer is read: the prompt, every option
/// numbered from 1, and the question with its default.
pub open spec fn choice_menu_spec(prompt: Seq<char>, options: Seq<Seq<char>>) -> Seq<char> {
    prompt + ":\n"@ + menu_lines(options) + "Choice [1]: "@
}

/// The menu shown before an answer is read (see [`choice_menu_spec`]).
pub fn choice_menu(prompt: &str, options: &Vec<String>) -> (r: String)
    ensures
        r@ == choice_menu_spec(prompt@, strs_view(options@)),
{
    let ghost ov = strs_view(options@);
    let mut r = prompt.to_owned();
    push_str(&mut r, ":\n");
    let ghost head = r@;
    let mut i: usize = 0;
    assert(ov.take(0) =~= Seq::<Seq<char>>::empty());
    assert(head + menu_lines(ov.take(0)) =~= r@);
    while i < options.len()
        invariant
            i <= options@.len(),
            ov == strs_view(options@),
            r@ == head + menu_lines(ov.take(i as int)),
        decreases options.len() - i,
    {
        assert(ov.take(i + 1).drop_last() =~= ov.take(i as int));
        assert(ov.take(i + 1).last() == options@[i as int]@);
        push_str(&mut r, "  ");
        push_str(&mut r, decimal_string(i + 1).as_str());
        push_str(&mut r, ". ");
        push_str(&mut r, options[i].as_str());
        push_str(&mut r, "\n");
        assert(r@ =~= head + menu_lines(ov.take(i + 1)));
        i += 1;
    }
    assert(ov.take(options@.len() as int) =~= ov);
    push_str(&mut r, "Choice [1]: ");
    r
}

/// The first option equal to `answer`.
pub open spec fn option_position(options: Seq<Seq<char>>, answer: Seq<char>) -> Option<int>
    decreases options.len(),
{
    if options.len() == 0 {
        None
    } else if options[0] == answer {
        Some(0)
    } else {
        match option_position(options.drop_first(), answer) {
            Some(i) => Some(i + 1),
            None => None,
        }
    }
}

/// The option a typed answer picks, trimmed: nothing picks the first; a
/// number from 1 to the number of options picks that one; otherwise the first
/// option spelled exactly as the answer. `None` asks again.
pub open spec fn parse_choice_spec(response: Seq<char>, options: Seq<Seq<char>>) -> Option<int> {
    let t = trim(response);
    if t.len() == 0 {
        Some(0)
    } else {
        match parse_usize(t) {
            Some(n) if 1 <= n <= options.len() => Some(n - 1),
            _ => option_position(options, t),
        }
    }
}

/// The first option equal to `answer` (see [`option_position`]).
fn find_option(options: &Vec<String>, answer: &str) -> (r: Option<usize>)
    ensures
        match r {
            Some(i) => option_position(strs_view(options@), answer@) == Some(i as int),
            None => option_position(strs_view(options@), answer@) is None,
        },
{
    let ghost ov = strs_view(options@);
    let mut k: usize = 0;
    assert(ov.skip(0) =~= ov);
    while k < options.len()
        invariant
            k <= options@.len(),
            ov == strs_view(options@),
            forall|j: int| 0 <= j < k ==> ov[j] != answer@,
            option_position(ov, answer@) == match option_position(ov.skip(k as int), answer@) {
                Some(i) => Some(i + k),
                None => None::<int>,
            },
        decreases options.len() - k,
    {
        assert(ov.skip(k as int)[0] == options@[k as int]@);
        assert(ov.skip(k as int).drop_first() =~= ov.skip(k + 1));
        if str_eq(options[k].as_str(), answer) {
            return Some(k);
        }
        k += 1;
    }
    assert(ov.skip(options@.len() as int) =~= Seq::<Seq<char>>::empty());
    None
}

/// The option a typed answer picks (see [`parse_choice_spec`]).
pub fn parse_choice(response: &str, options: &Vec<String>) -> (r: Option<usize>)
    ensures
        match r {
            Some(i) => parse_choice_spec(response@, strs_view(options@)) == Some(i as int),
            None => parse_choice_spec(response@, strs_view(options@)) is None,
        },
{
    let trimmed = trim_string(response);
    if trimmed.as_str().is_empty() {
        return Some(0);
    }
    match parse_usize_str(trimmed.as_str()) {
        Some(n) => {
            if 1 <= n && n <= options.len() {
                return Some(n - 1);
            }
        },
        None => {},
    }
    find_option(options, trimmed.as_str())
}

/// What is said when an answer picks nothing.
pub fn choice_retry_message(count: usize) -> (r: String)
    ensures
        r@ == "Enter a number between 1 and "@ + decimal(count as nat) + ".\n"@,
{
    let mut r = "Enter a number between 1 and ".to_owned();
    push_str(&mut r, decimal_string(count).as_str());
    push_str(&mut r, ".\n");
    r
}

/// What is said when there is nothing to choose from.
pub fn no_options_message(prompt: &str) -> (r: String)
    ensures
        r@ == prompt@ + " has no options"@,
{
    let mut r = prompt.to_owned();
    push_str(&mut r, " has no options");
    r
}

/// Typing the number the menu shows next to an option picks that option.
pub proof fn law_menu_number_picks_its_option(options: Seq<Seq<char>>, k: nat)
    requires
        1 <= k <= options.len(),
        k <= usize::MAX,
    ensures
        parse_choice_spec(decimal(k), options) == Some(k - 1),
{
    crate::text::lemma_decimal_reads_back(k);
}

} // verus!
