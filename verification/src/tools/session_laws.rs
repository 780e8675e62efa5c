//! What the actions of a browser lead to.

use vstd::prelude::*;

use crate::coding::arguments::argument_number;
use crate::coding::git::{combined_output, git_output};
use crate::coding::limits::MAX_OUTPUT_CHARS;
use crate::json::JsonModel;
use crate::number::decimal;
use crate::table::{law_set_value_is_read_back, value_of};
use crate::text::{has_part, is_blank, lowercase, occurs_at};
use crate::tools::browser::{
    click_element_step, close_step, keys_step, scroll_to_text_step, select_step, switch_step,
    tab_index, without_tab, AfterLoad, SessionModel, StepModel,
};
use crate::tools::html::{attribute_value, page_links, page_text};

verus! {

/// A click on an element leads where its link leads; an element that is not there is refused.
pub proof fn law_clicks_follow_the_element(s: SessionModel, a: JsonModel, n: usize)
    requires
        argument_number(a, "index"@) == Some(n),
    ensures
        n < page_links(s.html, s.current_url).len() ==> (click_element_step(s, a) matches Ok((
            next,
            step,
        )) && next == s && (step matches StepModel::Load { url, then } && url == page_links(
            s.html,
            s.current_url,
        )[n as int].1 && then == AfterLoad::Visit)),
        n >= page_links(s.html, s.current_url).len() ==> click_element_step(s, a) is Err,
{
}

/// Another tab is shown by its own page; where a tab is closed, the last one that stays is shown,
/// and nothing where none does.
pub proof fn law_tabs_are_shown_by_their_pages(s: SessionModel, a: JsonModel, id: usize)
    requires
        argument_number(a, "tab_id"@) == Some(id),
    ensures
        tab_index(s.tabs, id) < s.tabs.len() ==> (switch_step(s, a) matches Ok((next, step)) && next
            == s && (step matches StepModel::Load { url, then } && url == s.tabs[tab_index(
            s.tabs,
            id,
        )].url && then == AfterLoad::Switch(id))),
        tab_index(s.tabs, id) >= s.tabs.len() ==> switch_step(s, a) is Err,
        without_tab(s.tabs, id).len() > 0 ==> (close_step(s, a) matches Ok((next, step)) && next
            == s && (step matches StepModel::Load { url, then } && url == without_tab(
            s.tabs,
            id,
        ).last().url && then == AfterLoad::Close(id))),
        without_tab(s.tabs, id).len() == 0 ==> (close_step(s, a) matches Ok((next, step))
            && next.tabs.len() == 0 && next.html.len() == 0 && next.current_url.len() == 0),
{
}

/// What is sent by keys and what is chosen is kept under its own name; the page stays.
pub proof fn law_what_is_chosen_is_kept(s: SessionModel, a: JsonModel, n: u64, text: Seq<char>)
    ensures
        a.text("keys"@) == Some(text) ==> (keys_step(s, a) matches Ok((next, step)) && value_of(
            next.typed_values,
            "keyboard"@,
        ) == Some(text) && next.html == s.html && next.tabs == s.tabs),
        a.get("index"@) is Some && a.get("index"@)->0.as_u64() == Some(n) && a.text("text"@)
            == Some(text) ==> (select_step(s, a) matches Ok((next, step)) && value_of(
            next.typed_values,
            "select_"@ + decimal(n as nat),
        ) == Some(text) && next.html == s.html && next.tabs == s.tabs),
{
    let away = "keyboard"@.push('x');
    assert(away.len() != "keyboard"@.len());
    law_set_value_is_read_back(s.typed_values, "keyboard"@, text, away);
    let field = "select_"@ + decimal(n as nat);
    assert(field.push('x').len() != field.len());
    law_set_value_is_read_back(s.typed_values, field, text, field.push('x'));
}

/// Whether a text is found on a page does not depend on the case in which it is asked for.
pub proof fn law_text_is_found_in_any_case(
    s: SessionModel,
    a: JsonModel,
    b: JsonModel,
    text: Seq<char>,
    other: Seq<char>,
)
    requires
        a.text("text"@) == Some(text),
        b.text("text"@) == Some(other),
        lowercase(text) == lowercase(other),
    ensures
        scroll_to_text_step(s, a) is Ok <==> scroll_to_text_step(s, b) is Ok,
        scroll_to_text_step(s, a) is Ok <==> has_part(
            lowercase(page_text(s.html)),
            lowercase(text),
        ),
        (scroll_to_text_step(s, a) matches Ok((next, step)) ==> next.scroll_y >= s.scroll_y
            && next.html == s.html),
{
}

/// The value of an attribute that stands in quotes is what stands between them.
pub proof fn law_quoted_values_are_read_back(value: Seq<char>, quote: char, rest: Seq<char>)
    requires
        quote == '"' || quote == '\'',
        !value.contains(quote),
    ensures
        attribute_value(seq![quote] + value + seq![quote] + rest) == Some(value),
{
    let all = seq![quote] + value + seq![quote] + rest;
    lemma_next(all, quote, 1, 1 + value.len() as int, value);
    assert(all.subrange(1, 1 + value.len() as int) =~= value);
}

proof fn lemma_next(all: Seq<char>, c: char, from: int, end: int, value: Seq<char>)
    requires
        1 <= from <= end < all.len(),
        end == 1 + value.len(),
        all[end] == c,
        forall|k: int| 0 <= k < value.len() ==> value[k] == #[trigger] all[k + 1],
        !value.contains(c),
    ensures
        crate::text::next_char(all, c, from) == end,
    decreases end - from,
{
    if from < end {
        assert(value[from - 1] == all[from - 1 + 1]);
        assert(value.contains(value[from - 1]));
        lemma_next(all, c, from + 1, end, value);
    }
}

/// A command that fails is refused, one that succeeds is not; all that it printed is told, where
/// that is not too long, and nothing but blanks is told as nothing.
pub proof fn law_commands_tell_what_they_printed(
    arguments: Seq<Seq<char>>,
    success: bool,
    stdout: Seq<char>,
    stderr: Seq<char>,
    empty_message: Seq<char>,
)
    ensures
        git_output(arguments, success, stdout, stderr, empty_message) is Ok <==> success,
        has_part(combined_output(stdout, stderr), stdout),
        has_part(combined_output(stdout, stderr), crate::text::trimmed(stderr)) || is_blank(stderr),
        success && is_blank(combined_output(stdout, stderr)) ==> git_output(
            arguments,
            success,
            stdout,
            stderr,
            empty_message,
        ) == Ok::<Seq<char>, Seq<char>>(empty_message),
        success && !is_blank(combined_output(stdout, stderr)) && combined_output(
            stdout,
            stderr,
        ).len() <= MAX_OUTPUT_CHARS ==> git_output(
            arguments,
            success,
            stdout,
            stderr,
            empty_message,
        ) == Ok::<Seq<char>, Seq<char>>(combined_output(stdout, stderr)),
{
    let all = combined_output(stdout, stderr);
    let told = crate::text::trimmed(stderr);
    assert(all.subrange(0, stdout.len() as int) =~= stdout);
    assert(occurs_at(all, stdout, 0));
    if !is_blank(stderr) {
        let at = all.len() - told.len();
        assert(all.subrange(at, at + told.len()) =~= told);
        assert(occurs_at(all, told, at));
    }
}

} // verus!
