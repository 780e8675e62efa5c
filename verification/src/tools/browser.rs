//! The browser tool: a session that moves from page to page.
//!
//! Pages are fetched outside the library. [`BrowserSession::step`] decides what an action needs,
//! and [`BrowserSession::arrive`] takes the page that was fetched for it.

use vstd::prelude::*;

use crate::coding::arguments::argument_number;
use crate::coding::limits::truncate_output;
use crate::deep::{deep, group_deep};
use crate::json::{group_json, num, signed_num, Json, JsonModel, Members};
use crate::json_text::pretty_json;
use crate::number::decimal;
use crate::table::with_value;
use crate::text::{has_part, lowercase};
use crate::tools::html::{html_links, html_text, page_links, page_options, page_text, page_title};
use crate::tools::websearch::{at_most, number_or, shown};

verus! {

broadcast use {group_deep, group_json};

// ---- the session ----

/// A tab of the browser.
#[derive(Debug, PartialEq, Eq)]
pub struct BrowserTab {
    pub id: usize,
    pub url: String,
    pub title: String,
}

pub struct TabModel {
    pub id: usize,
    pub url: Seq<char>,
    pub title: Seq<char>,
}

impl DeepView for BrowserTab {
    type V = TabModel;

    open spec fn deep_view(&self) -> TabModel {
        TabModel { id: self.id, url: self.url@, title: self.title@ }
    }
}

impl Clone for BrowserTab {
    fn clone(&self) -> (r: Self)
        ensures
            r.deep_view() == self.deep_view(),
    {
        BrowserTab { id: self.id, url: self.url.clone(), title: self.title.clone() }
    }
}

/// What a browser has open: the page, the tabs and the pages that were visited.
#[derive(Debug, PartialEq, Eq)]
pub struct BrowserSession {
    pub current_url: String,
    pub title: String,
    pub html: String,
    pub tabs: Vec<BrowserTab>,
    pub active_tab_id: usize,
    pub history: Vec<String>,
    pub history_index: usize,
    pub typed_values: Vec<(String, String)>,
    pub scroll_y: i64,
}

pub struct SessionModel {
    pub current_url: Seq<char>,
    pub title: Seq<char>,
    pub html: Seq<char>,
    pub tabs: Seq<TabModel>,
    pub active_tab_id: usize,
    pub history: Seq<Seq<char>>,
    pub history_index: usize,
    pub typed_values: Seq<(Seq<char>, Seq<char>)>,
    pub scroll_y: i64,
}

impl DeepView for BrowserSession {
    type V = SessionModel;

    open spec fn deep_view(&self) -> SessionModel {
        SessionModel {
            current_url: self.current_url@,
            title: self.title@,
            html: self.html@,
            tabs: deep(self.tabs@),
            active_tab_id: self.active_tab_id,
            history: deep(self.history@),
            history_index: self.history_index,
            typed_values: deep(self.typed_values@),
            scroll_y: self.scroll_y,
        }
    }
}

impl SessionModel {
    /// Whether the place in the history is one: the first where nothing was visited yet.
    pub open spec fn wf(self) -> bool {
        &&& self.history.len() == 0 ==> self.history_index == 0
        &&& self.history.len() > 0 ==> self.history_index < self.history.len()
        &&& self.scroll_y >= 0
    }
}

// ---- pages ----

/// The place of the first tab with the number; the count of the tabs where there is none.
pub open spec fn tab_index(tabs: Seq<TabModel>, id: usize) -> int
    decreases tabs.len(),
{
    if tabs.len() == 0 || tabs.first().id == id {
        0
    } else {
        1 + tab_index(tabs.drop_first(), id)
    }
}

/// The session when it shows the page. The tab in front shows it too.
pub open spec fn showing(s: SessionModel, url: Seq<char>, html: Seq<char>) -> SessionModel {
    let i = tab_index(s.tabs, s.active_tab_id);
    let title = page_title(html);
    SessionModel {
        current_url: url,
        title,
        html,
        tabs: if i < s.tabs.len() {
            s.tabs.update(i, TabModel { id: s.tabs[i].id, url, title })
        } else {
            s.tabs
        },
        ..s
    }
}

/// The session when the page has been visited: those ahead in the history are forgotten.
pub open spec fn visited(s: SessionModel, url: Seq<char>) -> SessionModel {
    let kept = if s.history_index + 1 < s.history.len() {
        s.history.take(s.history_index + 1)
    } else {
        s.history
    };
    SessionModel {
        history: kept.push(url),
        history_index: kept.len() as usize,
        ..s
    }
}

/// What is done with a page once it is there.
#[derive(Debug, PartialEq, Eq, Clone, Copy)]
pub enum AfterLoad {
    /// It is opened in a new tab.
    Open,
    /// It is shown.
    Stay,
    /// It is the one before in the history.
    Back,
    /// It is the next one in the history.
    Forward,
    /// A link led to it.
    Visit,
    /// It is the page of the tab that comes to the front.
    Switch(usize),
    /// It is the page of the last tab when the tab with this number is closed.
    Close(usize),
}

/// The tabs without those that have the number.
pub open spec fn without_tab(tabs: Seq<TabModel>, id: usize) -> Seq<TabModel>
    decreases tabs.len(),
{
    if tabs.len() == 0 {
        tabs
    } else if tabs.last().id == id {
        without_tab(tabs.drop_last(), id)
    } else {
        without_tab(tabs.drop_last(), id).push(tabs.last())
    }
}

/// The session once the page is there.
pub open spec fn arrived(
    s: SessionModel,
    then: AfterLoad,
    url: Seq<char>,
    html: Seq<char>,
) -> SessionModel {
    match then {
        AfterLoad::Open => {
            let next = visited(showing(s, url, html), url);
            SessionModel {
                tabs: next.tabs.push(
                    TabModel { id: next.tabs.len() as usize, url, title: page_title(html) },
                ),
                active_tab_id: next.tabs.len() as usize,
                ..next
            }
        },
        AfterLoad::Stay => showing(s, url, html),
        AfterLoad::Back => showing(
            SessionModel { history_index: (s.history_index - 1) as usize, ..s },
            url,
            html,
        ),
        AfterLoad::Forward => showing(
            SessionModel { history_index: (s.history_index + 1) as usize, ..s },
            url,
            html,
        ),
        AfterLoad::Visit => visited(showing(s, url, html), url),
        AfterLoad::Switch(id) => SessionModel { active_tab_id: id, ..showing(s, url, html) },
        AfterLoad::Close(id) => {
            let tabs = without_tab(s.tabs, id);
            if tabs.len() == 0 {
                showing(SessionModel { tabs, ..s }, url, html)
            } else {
                showing(SessionModel { tabs, active_tab_id: tabs.last().id, ..s }, url, html)
            }
        },
    }
}

/// Whether what is done fits the session.
pub open spec fn can_arrive(s: SessionModel, then: AfterLoad) -> bool {
    match then {
        AfterLoad::Back => s.history_index > 0,
        AfterLoad::Forward => s.history_index + 1 < s.history.len(),
        AfterLoad::Close(id) => without_tab(s.tabs, id).len() > 0,
        _ => true,
    }
}

// ---- what is shown ----

pub open spec fn tab_json(tab: TabModel) -> JsonModel {
    JsonModel::Object(
        seq![
            ("id"@, num(tab.id as nat)),
            ("url"@, JsonModel::Str(tab.url)),
            ("title"@, JsonModel::Str(tab.title)),
        ],
    )
}

pub open spec fn element_json(index: int, link: (Seq<char>, Seq<char>)) -> JsonModel {
    JsonModel::Object(
        seq![
            ("index"@, num(index as nat)),
            ("type"@, JsonModel::Str("link"@)),
            ("text"@, JsonModel::Str(link.0)),
            ("url"@, JsonModel::Str(link.1)),
        ],
    )
}

pub open spec fn link_json(link: (Seq<char>, Seq<char>)) -> JsonModel {
    JsonModel::Object(
        seq![("text"@, JsonModel::Str(link.0)), ("url"@, JsonModel::Str(link.1))],
    )
}

/// How many links are shown as elements, and how many as links.
pub const MAX_ELEMENTS: usize = 50;

pub const MAX_SHOWN_LINKS: usize = 30;

/// The first `n` links as elements of the page.
pub open spec fn elements_json(links: Seq<(Seq<char>, Seq<char>)>) -> Seq<JsonModel> {
    let first = at_most(links, MAX_ELEMENTS as nat);
    Seq::new(first.len(), |i: int| element_json(i, first[i]))
}

pub open spec fn shown_links_json(links: Seq<(Seq<char>, Seq<char>)>) -> Seq<JsonModel> {
    let first = at_most(links, MAX_SHOWN_LINKS as nat);
    Seq::new(first.len(), |i: int| link_json(first[i]))
}

/// The state of the browser, as it is shown.
pub open spec fn state_json(s: SessionModel, status: u16, include_text: bool) -> JsonModel {
    let links = page_links(s.html, s.current_url);
    JsonModel::Object(
        seq![
            ("url"@, JsonModel::Str(s.current_url)),
            ("title"@, JsonModel::Str(s.title)),
            ("status_code"@, num(status as nat)),
            ("scroll_y"@, signed_num(s.scroll_y as int)),
            ("history_index"@, num(s.history_index as nat)),
            ("active_tab_id"@, num(s.active_tab_id as nat)),
            ("tabs"@, JsonModel::Array(Seq::new(s.tabs.len(), |i: int| tab_json(s.tabs[i])))),
            ("interactive_elements"@, JsonModel::Array(elements_json(links))),
            ("links"@, JsonModel::Array(shown_links_json(links))),
            (
                "text"@,
                if include_text {
                    JsonModel::Str(shown(page_text(s.html)))
                } else {
                    JsonModel::Null
                },
            ),
        ],
    )
}

fn tab_value(tab: &BrowserTab) -> (r: Json)
    ensures
        r.deep_view() == tab_json(tab.deep_view()),
{
    let members = Members::new().with("id", Json::number(tab.id as u64)).with(
        "url",
        Json::string(&tab.url),
    ).with("title", Json::string(&tab.title));
    proof {
        assert(members.model() =~= tab_json(tab.deep_view())->Object_0);
    }
    members.object()
}

fn tab_values(tabs: &Vec<BrowserTab>) -> (r: Vec<Json>)
    ensures
        deep(r@) == Seq::new(tabs@.len(), |i: int| tab_json(deep(tabs@)[i])),
{
    let mut r: Vec<Json> = Vec::new();
    let mut i: usize = 0;
    while i < tabs.len()
        invariant
            i <= tabs@.len(),
            r@.len() == i,
            forall|k: int| 0 <= k < i ==> #[trigger] deep(r@)[k] == tab_json(deep(tabs@)[k]),
        decreases tabs@.len() - i,
    {
        let value = tab_value(&tabs[i]);
        let ghost before = deep(r@);
        r.push(value);
        proof {
            assert(deep(r@) == before.push(value.deep_view()));
            assert(deep(tabs@)[i as int] == tabs@[i as int].deep_view());
        }
        i += 1;
    }
    proof {
        assert(deep(r@) =~= Seq::new(tabs@.len(), |i: int| tab_json(deep(tabs@)[i])));
    }
    r
}

fn element_values(links: &Vec<(String, String)>) -> (r: Vec<Json>)
    ensures
        deep(r@) == elements_json(deep(links@)),
{
    let mut r: Vec<Json> = Vec::new();
    let mut i: usize = 0;
    while i < links.len() && i < MAX_ELEMENTS
        invariant
            i <= links@.len(),
            i <= MAX_ELEMENTS,
            r@.len() == i,
            forall|k: int|
                0 <= k < i ==> #[trigger] deep(r@)[k] == element_json(k, deep(links@)[k]),
        decreases links@.len() - i,
    {
        let members = Members::new().with("index", Json::number(i as u64)).with(
            "type",
            Json::string("link"),
        ).with("text", Json::string(&links[i].0)).with("url", Json::string(&links[i].1));
        proof {
            assert(deep(links@)[i as int] == links@[i as int].deep_view());
            assert(members.model() =~= element_json(i as int, deep(links@)[i as int])->Object_0);
        }
        let value = members.object();
        let ghost before = deep(r@);
        r.push(value);
        proof {
            assert(deep(r@) == before.push(value.deep_view()));
        }
        i += 1;
    }
    proof {
        assert(deep(r@) =~= elements_json(deep(links@)));
    }
    r
}

fn link_values(links: &Vec<(String, String)>) -> (r: Vec<Json>)
    ensures
        deep(r@) == shown_links_json(deep(links@)),
{
    let mut r: Vec<Json> = Vec::new();
    let mut i: usize = 0;
    while i < links.len() && i < MAX_SHOWN_LINKS
        invariant
            i <= links@.len(),
            i <= MAX_SHOWN_LINKS,
            r@.len() == i,
            forall|k: int| 0 <= k < i ==> #[trigger] deep(r@)[k] == link_json(deep(links@)[k]),
        decreases links@.len() - i,
    {
        let members = Members::new().with("text", Json::string(&links[i].0)).with(
            "url",
            Json::string(&links[i].1),
        );
        proof {
            assert(deep(links@)[i as int] == links@[i as int].deep_view());
            assert(members.model() =~= link_json(deep(links@)[i as int])->Object_0);
        }
        let value = members.object();
        let ghost before = deep(r@);
        r.push(value);
        proof {
            assert(deep(r@) == before.push(value.deep_view()));
        }
        i += 1;
    }
    proof {
        assert(deep(r@) =~= shown_links_json(deep(links@)));
    }
    r
}

/// The state of the browser, as it is shown.
pub fn browser_state_output(
    session: &BrowserSession,
    status_code: u16,
    include_text: bool,
) -> (r: String)
    ensures
        r@ == pretty_json(state_json(session.deep_view(), status_code, include_text)),
{
    let links = html_links(&session.html, &session.current_url);
    let text = if include_text {
        Json::string(&truncate_output(&html_text(&session.html)))
    } else {
        Json::Null
    };
    let members = Members::new().with("url", Json::string(&session.current_url)).with(
        "title",
        Json::string(&session.title),
    ).with("status_code", Json::number(status_code as u64)).with(
        "scroll_y",
        Json::signed(session.scroll_y),
    ).with("history_index", Json::number(session.history_index as u64)).with(
        "active_tab_id",
        Json::number(session.active_tab_id as u64),
    ).with("tabs", Json::Array(tab_values(&session.tabs))).with(
        "interactive_elements",
        Json::Array(element_values(&links)),
    ).with("links", Json::Array(link_values(&links))).with("text", text);
    proof {
        let s = session.deep_view();
        assert(Seq::new(s.tabs.len(), |i: int| tab_json(s.tabs[i])) =~= Seq::new(
            session.tabs@.len(),
            |i: int| tab_json(deep(session.tabs@)[i]),
        ));
        assert(members.model() =~= state_json(s, status_code, include_text)->Object_0);
    }
    members.object().to_pretty_text()
}

// ---- actions ----

/// What an action needs, or what it shows.
#[derive(Debug, PartialEq, Eq)]
pub enum BrowserStep {
    /// The action is done, and this is shown.
    Show(String),
    /// The page is to be fetched; then [`BrowserSession::arrive`] goes on.
    Load { url: String, then: AfterLoad },
    /// The web is to be searched.
    Search { query: String },
    /// The time is to be waited; then [`waited`] says so.
    Wait { seconds: u64 },
    /// A picture of the page is to be taken; then [`BrowserSession::screenshot`] says where it is.
    Screenshot,
}

pub enum StepModel {
    Show(Seq<char>),
    Load { url: Seq<char>, then: AfterLoad },
    Search { query: Seq<char> },
    Wait { seconds: u64 },
    Screenshot,
}

impl DeepView for BrowserStep {
    type V = StepModel;

    open spec fn deep_view(&self) -> StepModel {
        match self {
            BrowserStep::Show(text) => StepModel::Show(text@),
            BrowserStep::Load { url, then } => StepModel::Load { url: url@, then: *then },
            BrowserStep::Search { query } => StepModel::Search { query: query@ },
            BrowserStep::Wait { seconds } => StepModel::Wait { seconds: *seconds },
            BrowserStep::Screenshot => StepModel::Screenshot,
        }
    }
}

/// The outcome of an action: the session behind it, and what it needs or shows.
pub type Outcome = Result<(SessionModel, StepModel), Seq<char>>;

/// The text of an argument, or else that of another.
pub open spec fn first_text(a: JsonModel, key: Seq<char>, other: Seq<char>) -> Option<Seq<char>> {
    match a.text(key) {
        Some(text) => Some(text),
        None => a.text(other),
    }
}

/// The first link whose text or address holds the needle.
pub open spec fn matching_link(
    links: Seq<(Seq<char>, Seq<char>)>,
    needle: Seq<char>,
) -> Option<Seq<char>>
    decreases links.len(),
{
    if links.len() == 0 {
        None
    } else if has_part(links.first().0, needle) || has_part(links.first().1, needle) {
        Some(links.first().1)
    } else {
        matching_link(links.drop_first(), needle)
    }
}

/// The field that is typed into.
pub open spec fn typed_field(a: JsonModel) -> Seq<char> {
    match first_text(a, "field"@, "selector"@) {
        Some(field) => field,
        None => match a.get("index"@) {
            Some(value) => match value.as_u64() {
                Some(index) => "element_"@ + decimal(index as nat),
                None => "active"@,
            },
            None => "active"@,
        },
    }
}

/// How far is scrolled: one page where nothing is said.
pub open spec fn scroll_amount(a: JsonModel) -> int {
    let value = match a.get("amount"@) {
        Some(value) => Some(value),
        None => a.get("scroll_amount"@),
    };
    let raw = match value {
        Some(value) => match value.as_i64() {
            Some(n) => n as int,
            None => 1,
        },
        None => 1,
    };
    if raw < 0 {
        -raw
    } else {
        raw
    }
}

/// The place on the page after scrolling: never above its top.
pub open spec fn scrolled(y: i64, by: int) -> i64 {
    let to = y + by * 600;
    if to < 0 {
        0
    } else if to > i64::MAX {
        i64::MAX
    } else {
        to as i64
    }
}

pub open spec fn open_step(s: SessionModel, a: JsonModel) -> Outcome {
    match a.text("url"@) {
        None => Err("browser open requires url"@),
        Some(url) => Ok((s, StepModel::Load { url, then: AfterLoad::Open })),
    }
}

pub open spec fn click_step(s: SessionModel, a: JsonModel) -> Outcome {
    match first_text(a, "selector"@, "text"@) {
        None => Err("browser click requires selector or text"@),
        Some(needle) => match matching_link(page_links(s.html, s.current_url), needle) {
            None => Err("No link matched '"@ + needle + "'."@),
            Some(url) => Ok((s, StepModel::Load { url, then: AfterLoad::Visit })),
        },
    }
}

pub open spec fn click_element_step(s: SessionModel, a: JsonModel) -> Outcome {
    match argument_number(a, "index"@) {
        None => Err("click_element requires index"@),
        Some(index) => {
            let links = page_links(s.html, s.current_url);
            if index < links.len() {
                Ok((s, StepModel::Load { url: links[index as int].1, then: AfterLoad::Visit }))
            } else {
                Err("Element with index "@ + decimal(index as nat) + " not found"@)
            }
        },
    }
}

pub open spec fn type_step(s: SessionModel, a: JsonModel, must: bool) -> Outcome {
    let text = a.text_or("text"@, ""@);
    let field = typed_field(a);
    if must && text.len() == 0 {
        Err("input_text requires text"@)
    } else {
        Ok(
            (
                SessionModel { typed_values: with_value(s.typed_values, field, text), ..s },
                StepModel::Show(shown("Recorded input for "@ + field + ": "@ + shown(text))),
            ),
        )
    }
}

pub open spec fn scroll_step(s: SessionModel, a: JsonModel, up: bool) -> Outcome {
    let by = if up {
        -scroll_amount(a)
    } else {
        scroll_amount(a)
    };
    let next = SessionModel { scroll_y: scrolled(s.scroll_y, by), ..s };
    Ok((next, StepModel::Show(shown(pretty_json(state_json(next, 200, false))))))
}

pub open spec fn scroll_to_text_step(s: SessionModel, a: JsonModel) -> Outcome {
    match a.text("text"@) {
        None => Err("scroll_to_text requires text"@),
        Some(text) => if has_part(lowercase(page_text(s.html)), lowercase(text)) {
            Ok(
                (
                    SessionModel {
                        scroll_y: if s.scroll_y < 600 {
                            600
                        } else {
                            s.scroll_y
                        },
                        ..s
                    },
                    StepModel::Show(shown("Scrolled to text: '"@ + text + "'"@)),
                ),
            )
        } else {
            Err("Text not found on current page: "@ + text)
        },
    }
}

pub open spec fn keys_step(s: SessionModel, a: JsonModel) -> Outcome {
    match a.text("keys"@) {
        None => Err("send_keys requires keys"@),
        Some(keys) => Ok(
            (
                SessionModel { typed_values: with_value(s.typed_values, "keyboard"@, keys), ..s },
                StepModel::Show(shown("Sent keys: "@ + keys)),
            ),
        ),
    }
}

pub open spec fn select_step(s: SessionModel, a: JsonModel) -> Outcome {
    match a.get("index"@) {
        Some(value) if value.as_u64() is Some => {
            let index = decimal(value.as_u64()->0 as nat);
            match a.text("text"@) {
                None => Err("select_dropdown_option requires text"@),
                Some(text) => Ok(
                    (
                        SessionModel {
                            typed_values: with_value(s.typed_values, "select_"@ + index, text),
                            ..s
                        },
                        StepModel::Show(
                            shown(
                                "Selected option '"@ + text + "' from dropdown at index "@ + index,
                            ),
                        ),
                    ),
                ),
            }
        },
        _ => Err("select_dropdown_option requires index"@),
    }
}

pub open spec fn switch_step(s: SessionModel, a: JsonModel) -> Outcome {
    match argument_number(a, "tab_id"@) {
        None => Err("switch_tab requires tab_id"@),
        Some(id) => {
            let i = tab_index(s.tabs, id);
            if i < s.tabs.len() {
                Ok((s, StepModel::Load { url: s.tabs[i].url, then: AfterLoad::Switch(id) }))
            } else {
                Err("Tab "@ + decimal(id as nat) + " not found"@)
            }
        },
    }
}

/// The tab that is closed: the one in front where nothing is said.
pub open spec fn closed_tab(s: SessionModel, a: JsonModel) -> usize {
    match argument_number(a, "tab_id"@) {
        Some(id) => id,
        None => s.active_tab_id,
    }
}

pub open spec fn close_step(s: SessionModel, a: JsonModel) -> Outcome {
    let id = closed_tab(s, a);
    let tabs = without_tab(s.tabs, id);
    if tabs.len() == 0 {
        Ok(
            (
                SessionModel {
                    tabs,
                    current_url: Seq::empty(),
                    title: Seq::empty(),
                    html: Seq::empty(),
                    ..s
                },
                StepModel::Show(closed_text(id)),
            ),
        )
    } else {
        Ok((s, StepModel::Load { url: tabs.last().url, then: AfterLoad::Close(id) }))
    }
}

pub open spec fn closed_text(id: usize) -> Seq<char> {
    shown("Closed tab "@ + decimal(id as nat) + "."@)
}

/// What is shown of the page, with the goal of the reading.
pub open spec fn extract_text(s: SessionModel, a: JsonModel) -> Seq<char> {
    let state = pretty_json(state_json(s, 200, true));
    shown(
        match a.text("goal"@) {
            Some(goal) => state + ("\nextraction_goal: "@ + shown(goal)),
            None => state,
        },
    )
}

pub open spec fn options_json(html: Seq<char>) -> JsonModel {
    JsonModel::Object(seq![("options"@, JsonModel::Array(page_options(html)))])
}

/// How long an action waits: one second where nothing is said, and 30 at the most.
pub open spec fn wait_seconds(a: JsonModel) -> u64 {
    let n = number_or(a, "seconds"@, 1);
    if n > 30 {
        30
    } else {
        n
    }
}

/// What an action does. Where a page is needed the session stays as it is until the page is
/// there.
pub open spec fn browser_action(s: SessionModel, action: Seq<char>, a: JsonModel) -> Outcome {
    if action == "open"@ || action == "go_to_url"@ || action == "open_tab"@ {
        open_step(s, a)
    } else if action == "refresh"@ {
        if s.current_url.len() == 0 {
            Err("No browser page is open."@)
        } else {
            Ok((s, StepModel::Load { url: s.current_url, then: AfterLoad::Stay }))
        }
    } else if action == "back"@ || action == "go_back"@ {
        if s.history_index == 0 || s.history.len() == 0 {
            Err("Browser history has no previous page."@)
        } else {
            Ok((s, StepModel::Load { url: s.history[s.history_index - 1], then: AfterLoad::Back }))
        }
    } else if action == "forward"@ {
        if s.history_index + 1 >= s.history.len() {
            Err("Browser history has no next page."@)
        } else {
            Ok(
                (
                    s,
                    StepModel::Load {
                        url: s.history[s.history_index + 1],
                        then: AfterLoad::Forward,
                    },
                ),
            )
        }
    } else if action == "extract"@ || action == "extract_content"@ {
        Ok((s, StepModel::Show(extract_text(s, a))))
    } else if action == "click"@ {
        click_step(s, a)
    } else if action == "click_element"@ {
        click_element_step(s, a)
    } else if action == "type"@ || action == "input_text"@ {
        type_step(s, a, action == "input_text"@)
    } else if action == "scroll"@ || action == "scroll_down"@ || action == "scroll_up"@ {
        scroll_step(s, a, action == "scroll_up"@)
    } else if action == "scroll_to_text"@ {
        scroll_to_text_step(s, a)
    } else if action == "send_keys"@ {
        keys_step(s, a)
    } else if action == "get_dropdown_options"@ {
        Ok((s, StepModel::Show(shown(pretty_json(options_json(s.html))))))
    } else if action == "select_dropdown_option"@ {
        select_step(s, a)
    } else if action == "web_search"@ {
        match a.text("query"@) {
            None => Err("web_search requires query"@),
            Some(query) => Ok((s, StepModel::Search { query })),
        }
    } else if action == "wait"@ {
        Ok((s, StepModel::Wait { seconds: wait_seconds(a) }))
    } else if action == "switch_tab"@ {
        switch_step(s, a)
    } else if action == "close_tab"@ {
        close_step(s, a)
    } else if action == "screenshot"@ {
        Ok((s, StepModel::Screenshot))
    } else {
        Err("Unsupported browser action: "@ + action)
    }
}

} // verus!
