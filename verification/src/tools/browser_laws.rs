//! What a session of the browser guarantees.

use vstd::prelude::*;

use crate::json::JsonModel;
use crate::table::value_of;
use crate::text::has_part;
use crate::tools::browser::{
    arrived, browser_action, element_json, elements_json, link_json, matching_link, scrolled,
    shown_links_json, tab_index, typed_field, without_tab, AfterLoad, SessionModel, StepModel,
    TabModel,
};
use crate::tools::html::{page_links, page_title};

verus! {

proof fn lemma_tab_index(tabs: Seq<TabModel>, id: usize)
    ensures
        0 <= tab_index(tabs, id) <= tabs.len(),
        tab_index(tabs, id) < tabs.len() ==> tabs[tab_index(tabs, id)].id == id,
        forall|j: int| 0 <= j < tab_index(tabs, id) ==> (#[trigger] tabs[j]).id != id,
    decreases tabs.len(),
{
    if tabs.len() > 0 && tabs.first().id != id {
        let rest = tabs.drop_first();
        lemma_tab_index(rest, id);
        assert forall|j: int| 0 <= j < 1 + tab_index(rest, id) implies (#[trigger] tabs[j]).id
            != id by {
            if j > 0 {
                assert(rest[j - 1] == tabs[j]);
            }
        }
    }
}

/// A page that is opened is shown in a new tab, behind the others, and comes last in the history;
/// the pages before it are still there.
pub proof fn law_opened_pages_get_a_tab(
    s: SessionModel,
    url: Seq<char>,
    html: Seq<char>,
    i: int,
)
    requires
        s.wf(),
        s.history.len() < usize::MAX,
        s.tabs.len() < usize::MAX,
    ensures
        ({
            let next = arrived(s, AfterLoad::Open, url, html);
            &&& next.current_url == url
            &&& next.html == html
            &&& next.title == page_title(html)
            &&& next.tabs.len() == s.tabs.len() + 1
            &&& next.tabs.last().url == url
            &&& next.active_tab_id == next.tabs.last().id
            &&& 0 <= i < s.tabs.len() && s.tabs[i].id != s.active_tab_id ==> next.tabs[i]
                == s.tabs[i]
            &&& next.history.last() == url
            &&& next.history_index == next.history.len() - 1
            &&& s.history.len() > 0 ==> next.history.take(s.history_index + 1) == s.history.take(
                s.history_index + 1,
            )
            &&& s.history.len() > 0 ==> next.history.len() == s.history_index + 2
            &&& next.typed_values == s.typed_values
        }),
{
    let next = arrived(s, AfterLoad::Open, url, html);
    lemma_tab_index(s.tabs, s.active_tab_id);
    if s.history.len() > 0 {
        assert(next.history.take(s.history_index + 1) =~= s.history.take(s.history_index + 1));
    }
}

/// A page that is visited from another one is shown in the same tab; going back and forward moves
/// through the history and does not change it.
pub proof fn law_history_is_kept(
    s: SessionModel,
    url: Seq<char>,
    html: Seq<char>,
    id: usize,
)
    requires
        s.wf(),
        0 < s.history.len() < usize::MAX,
    ensures
        ({
            let next = arrived(s, AfterLoad::Visit, url, html);
            &&& next.tabs.len() == s.tabs.len()
            &&& next.active_tab_id == s.active_tab_id
            &&& next.history.take(s.history_index + 1) == s.history.take(s.history_index + 1)
            &&& next.history.last() == url
            &&& next.history.len() == s.history_index + 2
            &&& next.history_index == s.history_index + 1
        }),
        s.history_index > 0 ==> arrived(s, AfterLoad::Back, url, html).history == s.history
            && arrived(s, AfterLoad::Back, url, html).history_index == s.history_index - 1,
        s.history_index + 1 < s.history.len() ==> arrived(
            s,
            AfterLoad::Forward,
            url,
            html,
        ).history == s.history && arrived(s, AfterLoad::Forward, url, html).history_index
            == s.history_index + 1,
        arrived(s, AfterLoad::Stay, url, html).history == s.history,
        arrived(s, AfterLoad::Stay, url, html).history_index == s.history_index,
        arrived(s, AfterLoad::Switch(id), url, html).active_tab_id == id,
        arrived(s, AfterLoad::Switch(id), url, html).tabs.len() == s.tabs.len(),
{
    let next = arrived(s, AfterLoad::Visit, url, html);
    assert(next.history.take(s.history_index + 1) =~= s.history.take(s.history_index + 1));
    lemma_tab_index(s.tabs, s.active_tab_id);
}

/// Closing a tab takes that tab away, and no other one.
pub proof fn law_closing_takes_one_tab_away(tabs: Seq<TabModel>, id: usize)
    ensures
        without_tab(tabs, id) == tabs.filter(|tab: TabModel| tab.id != id),
    decreases tabs.len(),
{
    reveal(Seq::filter);
    if tabs.len() > 0 {
        law_closing_takes_one_tab_away(tabs.drop_last(), id);
    }
    assert(without_tab(tabs, id) =~= tabs.filter(|tab: TabModel| tab.id != id));
}

/// A link is clicked by its text or its address: the first that holds what is looked for.
pub proof fn law_the_first_matching_link_is_clicked(
    links: Seq<(Seq<char>, Seq<char>)>,
    needle: Seq<char>,
    i: int,
)
    requires
        0 <= i <= links.len(),
        forall|j: int|
            0 <= j < i ==> !has_part((#[trigger] links[j]).0, needle) && !has_part(
                links[j].1,
                needle,
            ),
        i < links.len() ==> has_part(links[i].0, needle) || has_part(links[i].1, needle),
    ensures
        matching_link(links, needle) == if i < links.len() {
            Some(links[i].1)
        } else {
            None
        },
    decreases links.len(),
{
    if i > 0 {
        assert(!has_part(links[0].0, needle) && !has_part(links[0].1, needle));
        let rest = links.drop_first();
        assert forall|j: int| 0 <= j < i - 1 implies !has_part((#[trigger] rest[j]).0, needle)
            && !has_part(rest[j].1, needle) by {
            assert(rest[j] == links[j + 1]);
        }
        law_the_first_matching_link_is_clicked(rest, needle, i - 1);
    }
}

proof fn lemma_actions_differ()
    ensures
        "back"@ != "open"@ && "back"@ != "go_to_url"@ && "back"@ != "open_tab"@ && "back"@
            != "refresh"@,
        "forward"@ != "open"@ && "forward"@ != "go_to_url"@ && "forward"@ != "open_tab"@
            && "forward"@ != "refresh"@ && "forward"@ != "back"@ && "forward"@ != "go_back"@,
        "click"@ != "open"@ && "click"@ != "go_to_url"@ && "click"@ != "open_tab"@ && "click"@
            != "refresh"@ && "click"@ != "back"@ && "click"@ != "go_back"@ && "click"@ != "forward"@
            && "click"@ != "extract"@ && "click"@ != "extract_content"@,
        "refresh"@ != "open"@ && "refresh"@ != "go_to_url"@ && "refresh"@ != "open_tab"@,
{
    reveal_strlit("open");
    reveal_strlit("go_to_url");
    reveal_strlit("open_tab");
    reveal_strlit("refresh");
    reveal_strlit("back");
    reveal_strlit("go_back");
    reveal_strlit("forward");
    reveal_strlit("click");
    reveal_strlit("extract");
    reveal_strlit("extract_content");
    assert("open"@[0] == 'o' && "go_to_url"@[0] == 'g' && "open_tab"@[0] == 'o' && "refresh"@[0]
        == 'r' && "back"@[0] == 'b' && "go_back"@[0] == 'g' && "forward"@[0] == 'f' && "click"@[0]
        == 'c' && "extract"@[0] == 'e' && "extract_content"@[0] == 'e');
}

/// The actions lead where they should: opening to the address that is named, going back and
/// forward to the pages of the history, a click to the link that it names, a refresh to the page
/// that is shown. Until the page is there nothing changes.
pub proof fn law_actions_lead_where_they_should(s: SessionModel, a: JsonModel, url: Seq<char>)
    ensures
        a.text("url"@) == Some(url) ==> browser_action(s, "open"@, a) == Ok::<
            (SessionModel, StepModel),
            Seq<char>,
        >((s, StepModel::Load { url, then: AfterLoad::Open })),
        s.current_url.len() > 0 ==> browser_action(s, "refresh"@, a) == Ok::<
            (SessionModel, StepModel),
            Seq<char>,
        >((s, StepModel::Load { url: s.current_url, then: AfterLoad::Stay })),
        s.wf() && s.history_index > 0 ==> browser_action(s, "back"@, a) == Ok::<
            (SessionModel, StepModel),
            Seq<char>,
        >((s, StepModel::Load { url: s.history[s.history_index - 1], then: AfterLoad::Back })),
        s.history_index == 0 ==> browser_action(s, "back"@, a) is Err,
        s.history_index + 1 < s.history.len() ==> browser_action(s, "forward"@, a) == Ok::<
            (SessionModel, StepModel),
            Seq<char>,
        >((s, StepModel::Load { url: s.history[s.history_index + 1], then: AfterLoad::Forward })),
        s.history_index + 1 >= s.history.len() ==> browser_action(s, "forward"@, a) is Err,
        (a.text("selector"@) matches Some(needle) ==> match matching_link(
            page_links(s.html, s.current_url),
            needle,
        ) {
            Some(to) => browser_action(s, "click"@, a) == Ok::<
                (SessionModel, StepModel),
                Seq<char>,
            >((s, StepModel::Load { url: to, then: AfterLoad::Visit })),
            None => browser_action(s, "click"@, a) is Err,
        }),
{
    lemma_actions_differ();
}

/// What is typed is kept under its field, and what was typed elsewhere stays.
pub proof fn law_typed_text_is_kept(s: SessionModel, a: JsonModel, other: Seq<char>)
    requires
        a.text("text"@) is Some,
        a.text("text"@)->0.len() > 0,
    ensures
        crate::tools::browser::type_step(s, a, true) matches Ok((next, step)) && value_of(
            next.typed_values,
            typed_field(a),
        ) == a.text("text"@) && (other != typed_field(a) ==> value_of(next.typed_values, other)
            == value_of(s.typed_values, other)) && next.html == s.html && next.tabs == s.tabs,
{
    let field = typed_field(a);
    let text = a.text("text"@)->0;
    let away = if other != field {
        other
    } else {
        field.push('x')
    };
    assert(field.push('x').len() != field.len());
    crate::table::law_set_value_is_read_back(s.typed_values, field, text, away);
}

/// Scrolling moves by whole pages, down and up, and never above the top of the page; what was
/// scrolled down can be scrolled up again.
pub proof fn law_scrolling_moves_by_pages(y: i64, n: nat)
    requires
        y >= 0,
        y + n * 600 <= i64::MAX,
    ensures
        scrolled(y, n as int) == y + n * 600,
        scrolled(scrolled(y, n as int), -(n as int)) == y,
        scrolled(0, -(n as int)) == 0,
{
    assert(-(n as int) * 600 == -(n * 600)) by (nonlinear_arith);
}

/// The links of a page are shown by their places, each with its text and its address.
pub proof fn law_links_are_shown_by_their_places(links: Seq<(Seq<char>, Seq<char>)>, i: int)
    requires
        0 <= i < links.len(),
    ensures
        i < 50 ==> i < elements_json(links).len() && elements_json(links)[i] == element_json(
            i,
            links[i],
        ),
        i < 30 ==> i < shown_links_json(links).len() && shown_links_json(links)[i] == link_json(
            links[i],
        ),
        elements_json(links).len() <= 50,
        shown_links_json(links).len() <= 30,
{
}

} // verus!
