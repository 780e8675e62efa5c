//! The actions of a browser session.

use vstd::prelude::*;

use crate::coding::arguments::integer_argument;
use crate::coding::limits::truncate_output;
use crate::deep::{deep, group_deep};
use crate::json::{group_json, Json, JsonModel, Members};
use crate::json_text::{parsed_json, pretty_json};
use crate::number::{decimal, number_text};
use crate::table::set_value;
use crate::text::{concat2, concat3, concat4, contains, same, to_lowercase};
use crate::tools::browser::{
    arrived, browser_action, browser_state_output, can_arrive, click_element_step, click_step,
    close_step, closed_text, extract_text, first_text, keys_step, matching_link, open_step,
    options_json,
    scroll_amount, scroll_step, scroll_to_text_step, select_step, showing, state_json, switch_step,
    tab_index, type_step, typed_field, visited, without_tab, AfterLoad, BrowserSession, BrowserStep,
    BrowserTab, Outcome, SessionModel, StepModel, TabModel,
};
use crate::tools::html::{html_links, html_select_options, html_text, html_title};
use crate::tools::websearch::{number_argument, shown};

verus! {

broadcast use {group_deep, group_json};

/// Whether a call with this result left the session as the outcome says.
pub open spec fn came_out(
    before: SessionModel,
    after: SessionModel,
    result: Result<BrowserStep, String>,
    outcome: Outcome,
) -> bool {
    match outcome {
        Ok((next, step)) => result is Ok && result->Ok_0.deep_view() == step && after == next,
        Err(error) => result is Err && result->Err_0@ == error && after == before,
    }
}

fn first_of(arguments: &Json, key: &str, other: &str) -> (r: Option<String>)
    ensures
        r.deep_view() == first_text(arguments.deep_view(), key@, other@),
{
    match arguments.text(key) {
        Some(text) => Some(text.clone()),
        None => match arguments.text(other) {
            Some(text) => Some(text.clone()),
            None => None,
        },
    }
}

fn find_link(links: &Vec<(String, String)>, needle: &str) -> (r: Option<String>)
    ensures
        r.deep_view() == matching_link(deep(links@), needle@),
{
    let ghost models = deep(links@);
    let mut i: usize = 0;
    proof {
        assert(models.skip(0) =~= models);
    }
    while i < links.len()
        invariant
            models == deep(links@),
            i <= links@.len(),
            matching_link(models, needle@) == matching_link(models.skip(i as int), needle@),
        decreases links@.len() - i,
    {
        proof {
            assert(models.skip(i as int).first() == links@[i as int].deep_view());
            assert(models.skip(i as int).drop_first() =~= models.skip(i + 1));
        }
        if contains(&links[i].0, needle) || contains(&links[i].1, needle) {
            return Some(links[i].1.clone());
        }
        i += 1;
    }
    None
}

fn find_tab(tabs: &Vec<BrowserTab>, id: usize) -> (r: usize)
    ensures
        r == tab_index(deep(tabs@), id),
        r <= tabs@.len(),
{
    let ghost models = deep(tabs@);
    let mut i: usize = 0;
    proof {
        assert(models.skip(0) =~= models);
    }
    while i < tabs.len() && tabs[i].id != id
        invariant
            models == deep(tabs@),
            i <= tabs@.len(),
            tab_index(models, id) == i + tab_index(models.skip(i as int), id),
        decreases tabs@.len() - i,
    {
        proof {
            assert(models.skip(i as int).first() == tabs@[i as int].deep_view());
            assert(models.skip(i as int).drop_first() =~= models.skip(i + 1));
        }
        i += 1;
    }
    proof {
        if i < tabs@.len() {
            assert(models.skip(i as int).first() == tabs@[i as int].deep_view());
        }
    }
    i
}

fn other_tabs(tabs: &Vec<BrowserTab>, id: usize) -> (r: Vec<BrowserTab>)
    ensures
        deep(r@) == without_tab(deep(tabs@), id),
{
    let ghost models = deep(tabs@);
    let mut r: Vec<BrowserTab> = Vec::new();
    let mut i: usize = 0;
    proof {
        assert(models.take(0) =~= Seq::<TabModel>::empty());
        assert(deep(r@) =~= Seq::<TabModel>::empty());
    }
    while i < tabs.len()
        invariant
            models == deep(tabs@),
            i <= tabs@.len(),
            deep(r@) == without_tab(models.take(i as int), id),
        decreases tabs@.len() - i,
    {
        proof {
            assert(models.take(i + 1).drop_last() =~= models.take(i as int));
            assert(models.take(i + 1).last() == tabs@[i as int].deep_view());
        }
        if tabs[i].id != id {
            r.push(tabs[i].clone());
        }
        i += 1;
    }
    proof {
        assert(models.take(models.len() as int) =~= models);
    }
    r
}

fn asked_scroll(arguments: &Json) -> (r: i64)
    ensures
        r == (match (match arguments.deep_view().get("amount"@) {
            Some(value) => Some(value),
            None => arguments.deep_view().get("scroll_amount"@),
        }) {
            Some(value) => match value.as_i64() {
                Some(n) => n,
                None => 1,
            },
            None => 1,
        }),
{
    let value = match arguments.get("amount") {
        Some(value) => Some(value),
        None => arguments.get("scroll_amount"),
    };
    match value {
        Some(value) => match value.as_i64() {
            Some(n) => n,
            None => 1,
        },
        None => 1,
    }
}

/// A message of an action that waited.
pub fn waited(seconds: u64) -> (r: String)
    ensures
        r@ == shown("Waited "@ + decimal(seconds as nat) + " second(s)."@),
{
    truncate_output(&concat3("Waited ", &number_text(seconds), " second(s)."))
}

/// The page that a search leads to: that of its first result.
pub open spec fn first_result(report: Seq<char>) -> Option<Seq<char>> {
    match parsed_json(report) {
        Ok(json) => first_result_url(json),
        Err(_) => None,
    }
}

/// The address of the first result in a report.
pub open spec fn first_result_url(report: JsonModel) -> Option<Seq<char>> {
    match report.items("results"@) {
        Some(items) => if items.len() > 0 {
            items[0].text("url"@)
        } else {
            None
        },
        None => None,
    }
}

/// The address of the first result in a report.
pub fn result_url(report: &Json) -> (r: Option<String>)
    ensures
        r.deep_view() == first_result_url(report.deep_view()),
{
    match report.items("results") {
        Some(items) => {
            if items.len() == 0 {
                return None;
            }
            proof {
                assert(deep(items@)[0] == items@[0].deep_view());
            }
            match items[0].text("url") {
                Some(url) => Some(url.clone()),
                None => None,
            }
        },
        None => None,
    }
}

/// The page that a search leads to. Where there is none, the report is what is shown.
pub fn search_target(report: &str) -> (r: Option<String>)
    ensures
        r.deep_view() == first_result(report@),
{
    match Json::parse(report) {
        Ok(json) => result_url(&json),
        Err(_) => None,
    }
}

pub open spec fn screenshot_json(
    s: SessionModel,
    session_id: Seq<char>,
    path: Seq<char>,
) -> JsonModel {
    JsonModel::Object(
        seq![
            ("session_id"@, JsonModel::Str(session_id)),
            ("url"@, JsonModel::Str(s.current_url)),
            ("title"@, JsonModel::Str(s.title)),
            ("visual_available"@, JsonModel::Bool(true)),
            ("image_path"@, JsonModel::Str(path)),
        ],
    )
}

/// The session that a call speaks of, and the key under which it is kept.
pub fn session_key(namespace: &str, arguments: &Json) -> (r: (String, String))
    ensures
        r.0@ == arguments.deep_view().text_or("session_id"@, "default"@),
        r.1@ == namespace@ + ":"@ + r.0@,
{
    let id = arguments.text_or("session_id", "default");
    let key = concat3(namespace, ":", &id);
    (id, key)
}

impl Clone for BrowserSession {
    fn clone(&self) -> (r: Self)
        ensures
            r.deep_view() == self.deep_view(),
    {
        BrowserSession {
            current_url: self.current_url.clone(),
            title: self.title.clone(),
            html: self.html.clone(),
            tabs: crate::deep::copy_all(&self.tabs),
            active_tab_id: self.active_tab_id,
            history: crate::deep::copy_strings(&self.history),
            history_index: self.history_index,
            typed_values: copy_values(&self.typed_values),
            scroll_y: self.scroll_y,
        }
    }
}

fn copy_values(values: &Vec<(String, String)>) -> (r: Vec<(String, String)>)
    ensures
        deep(r@) == deep(values@),
{
    let mut r: Vec<(String, String)> = Vec::new();
    let mut i: usize = 0;
    while i < values.len()
        invariant
            i <= values@.len(),
            r@.len() == i,
            forall|k: int| 0 <= k < i ==> #[trigger] deep(r@)[k] == deep(values@)[k],
        decreases values@.len() - i,
    {
        let value = (values[i].0.clone(), values[i].1.clone());
        let ghost before = deep(r@);
        r.push(value);
        proof {
            assert(deep(r@) == before.push(value.deep_view()));
            assert(deep(values@)[i as int] == values@[i as int].deep_view());
        }
        i += 1;
    }
    proof {
        assert(deep(r@) =~= deep(values@));
    }
    r
}

/// A session that has nothing open.
pub open spec fn nothing_open() -> SessionModel {
    SessionModel {
        current_url: Seq::empty(),
        title: Seq::empty(),
        html: Seq::empty(),
        tabs: Seq::empty(),
        active_tab_id: 0,
        history: Seq::empty(),
        history_index: 0,
        typed_values: Seq::empty(),
        scroll_y: 0,
    }
}

impl BrowserSession {
    /// A session that has nothing open.
    pub fn new() -> (r: Self)
        ensures
            r.deep_view() == nothing_open(),
            r.deep_view().wf(),
    {
        BrowserSession {
            current_url: String::new(),
            title: String::new(),
            html: String::new(),
            tabs: Vec::new(),
            active_tab_id: 0,
            history: Vec::new(),
            history_index: 0,
            typed_values: Vec::new(),
            scroll_y: 0,
        }
    }

    fn show(&mut self, url: &str, html: &str)
        ensures
            final(self).deep_view() == showing(old(self).deep_view(), url@, html@),
    {
        let title = html_title(html);
        let i = find_tab(&self.tabs, self.active_tab_id);
        let ghost before = deep(self.tabs@);
        if i < self.tabs.len() {
            let tab = BrowserTab {
                id: self.tabs[i].id,
                url: url.to_owned(),
                title: title.clone(),
            };
            proof {
                assert(before[i as int] == self.tabs@[i as int].deep_view());
            }
            self.tabs.set(i, tab);
            proof {
                assert(deep(self.tabs@) == before.update(i as int, tab.deep_view()));
            }
        }
        self.current_url = url.to_owned();
        self.title = title;
        self.html = html.to_owned();
    }

    fn visit(&mut self, url: &str)
        requires
            old(self).deep_view().wf(),
        ensures
            final(self).deep_view() == visited(old(self).deep_view(), url@),
            final(self).deep_view().wf(),
    {
        let ghost before = deep(self.history@);
        let n = self.history.len();
        if n > 0 && self.history_index < n - 1 {
            self.history.truncate(self.history_index + 1);
            proof {
                assert(deep(self.history@) =~= before.take(self.history_index + 1));
            }
        }
        let place = self.history.len();
        self.history.push(url.to_owned());
        self.history_index = place;
    }

    /// Takes the page that was fetched for an action, and says what is shown.
    pub fn arrive(&mut self, then: AfterLoad, url: &str, status: u16, html: &str) -> (r: String)
        requires
            old(self).deep_view().wf(),
            can_arrive(old(self).deep_view(), then),
        ensures
            final(self).deep_view() == arrived(old(self).deep_view(), then, url@, html@),
            final(self).deep_view().wf(),
            r@ == match then {
                AfterLoad::Close(id) => closed_text(id),
                _ => shown(pretty_json(state_json(final(self).deep_view(), status, true))),
            },
    {
        let n = self.history.len();
        match then {
            AfterLoad::Open => {
                self.show(url, html);
                self.visit(url);
                let id = self.tabs.len();
                let tab = BrowserTab {
                    id,
                    url: self.current_url.clone(),
                    title: self.title.clone(),
                };
                self.tabs.push(tab);
                self.active_tab_id = id;
            },
            AfterLoad::Stay => {
                self.show(url, html);
            },
            AfterLoad::Back => {
                self.history_index = self.history_index - 1;
                self.show(url, html);
            },
            AfterLoad::Forward => {
                self.history_index = self.history_index + 1;
                self.show(url, html);
            },
            AfterLoad::Visit => {
                self.show(url, html);
                self.visit(url);
            },
            AfterLoad::Switch(id) => {
                self.show(url, html);
                self.active_tab_id = id;
            },
            AfterLoad::Close(id) => {
                self.tabs = other_tabs(&self.tabs, id);
                let count = self.tabs.len();
                if count > 0 {
                    proof {
                        assert(deep(self.tabs@).last() == self.tabs@.last().deep_view());
                    }
                    self.active_tab_id = self.tabs[count - 1].id;
                }
                self.show(url, html);
                return truncate_output(&concat3("Closed tab ", &number_text(id as u64), "."));
            },
        }
        truncate_output(&browser_state_output(self, status, true))
    }

    /// What is shown of the page that a search led to. The session stays where it was.
    pub fn peek(&self, url: &str, status: u16, html: &str) -> (r: String)
        ensures
            r@ == pretty_json(state_json(showing(self.deep_view(), url@, html@), status, true)),
    {
        let mut other = self.clone();
        other.show(url, html);
        browser_state_output(&other, status, true)
    }

    /// What is shown of a picture of the page.
    pub fn screenshot(&self, session_id: &str, path: &str) -> (r: String)
        ensures
            r@ == shown(pretty_json(screenshot_json(self.deep_view(), session_id@, path@))),
    {
        let members = Members::new().with("session_id", Json::string(session_id)).with(
            "url",
            Json::string(&self.current_url),
        ).with("title", Json::string(&self.title)).with("visual_available", Json::Bool(true)).with(
            "image_path",
            Json::string(path),
        );
        proof {
            assert(members.model() =~= screenshot_json(
                self.deep_view(),
                session_id@,
                path@,
            )->Object_0);
        }
        truncate_output(&members.object().to_pretty_text())
    }

    fn click(&self, arguments: &Json) -> (r: Result<BrowserStep, String>)
        ensures
            came_out(
                self.deep_view(),
                self.deep_view(),
                r,
                click_step(self.deep_view(), arguments.deep_view()),
            ),
    {
        let needle = match first_of(arguments, "selector", "text") {
            Some(needle) => needle,
            None => {
                return Err("browser click requires selector or text".to_owned());
            },
        };
        match find_link(&html_links(&self.html, &self.current_url), &needle) {
            Some(url) => Ok(BrowserStep::Load { url, then: AfterLoad::Visit }),
            None => Err(concat3("No link matched '", &needle, "'.")),
        }
    }

    fn click_element(&self, arguments: &Json) -> (r: Result<BrowserStep, String>)
        ensures
            came_out(
                self.deep_view(),
                self.deep_view(),
                r,
                click_element_step(self.deep_view(), arguments.deep_view()),
            ),
    {
        let index: usize = match integer_argument(arguments, "index") {
            Some(index) => index,
            None => {
                return Err("click_element requires index".to_owned());
            },
        };
        let links = html_links(&self.html, &self.current_url);
        proof {
            assert(deep(links@).len() == links@.len());
        }
        if index < links.len() {
            proof {
                assert(deep(links@)[index as int] == links@[index as int].deep_view());
            }
            Ok(BrowserStep::Load { url: links[index].1.clone(), then: AfterLoad::Visit })
        } else {
            Err(concat3("Element with index ", &number_text(index as u64), " not found"))
        }
    }

    fn type_text(&mut self, arguments: &Json, must: bool) -> (r: Result<BrowserStep, String>)
        ensures
            came_out(
                old(self).deep_view(),
                final(self).deep_view(),
                r,
                type_step(old(self).deep_view(), arguments.deep_view(), must),
            ),
    {
        let field = match first_of(arguments, "field", "selector") {
            Some(field) => field,
            None => match arguments.get("index") {
                Some(value) => match value.as_u64() {
                    Some(index) => concat2("element_", &number_text(index)),
                    None => "active".to_owned(),
                },
                None => "active".to_owned(),
            },
        };
        proof {
            assert(field@ == typed_field(arguments.deep_view()));
        }
        let text = arguments.text_or("text", "");
        if must && text.as_str().is_empty() {
            return Err("input_text requires text".to_owned());
        }
        set_value(&mut self.typed_values, &field, text.clone());
        Ok(
            BrowserStep::Show(
                truncate_output(
                    &concat4("Recorded input for ", &field, ": ", &truncate_output(&text)),
                ),
            ),
        )
    }

    fn scroll(&mut self, arguments: &Json, up: bool) -> (r: Result<BrowserStep, String>)
        ensures
            came_out(
                old(self).deep_view(),
                final(self).deep_view(),
                r,
                scroll_step(old(self).deep_view(), arguments.deep_view(), up),
            ),
    {
        let raw = asked_scroll(arguments) as i128;
        let amount = if raw < 0 {
            -raw
        } else {
            raw
        };
        let by = if up {
            -amount
        } else {
            amount
        };
        let to: i128 = self.scroll_y as i128 + by * 600;
        self.scroll_y = if to < 0 {
            0
        } else if to > i64::MAX as i128 {
            i64::MAX
        } else {
            to as i64
        };
        Ok(BrowserStep::Show(truncate_output(&browser_state_output(self, 200, false))))
    }

    fn scroll_to_text(&mut self, arguments: &Json) -> (r: Result<BrowserStep, String>)
        ensures
            came_out(
                old(self).deep_view(),
                final(self).deep_view(),
                r,
                scroll_to_text_step(old(self).deep_view(), arguments.deep_view()),
            ),
    {
        let text = match arguments.text("text") {
            Some(text) => text,
            None => {
                return Err("scroll_to_text requires text".to_owned());
            },
        };
        if !contains(&to_lowercase(&html_text(&self.html)), &to_lowercase(text)) {
            return Err(concat2("Text not found on current page: ", text));
        }
        if self.scroll_y < 600 {
            self.scroll_y = 600;
        }
        Ok(BrowserStep::Show(truncate_output(&concat3("Scrolled to text: '", text, "'"))))
    }

    fn send_keys(&mut self, arguments: &Json) -> (r: Result<BrowserStep, String>)
        ensures
            came_out(
                old(self).deep_view(),
                final(self).deep_view(),
                r,
                keys_step(old(self).deep_view(), arguments.deep_view()),
            ),
    {
        let keys = match arguments.text("keys") {
            Some(keys) => keys,
            None => {
                return Err("send_keys requires keys".to_owned());
            },
        };
        set_value(&mut self.typed_values, "keyboard", keys.clone());
        Ok(BrowserStep::Show(truncate_output(&concat2("Sent keys: ", keys))))
    }

    fn select(&mut self, arguments: &Json) -> (r: Result<BrowserStep, String>)
        ensures
            came_out(
                old(self).deep_view(),
                final(self).deep_view(),
                r,
                select_step(old(self).deep_view(), arguments.deep_view()),
            ),
    {
        let found = match arguments.get("index") {
            Some(value) => value.as_u64(),
            None => None,
        };
        let index = match found {
            Some(index) => number_text(index),
            None => {
                return Err("select_dropdown_option requires index".to_owned());
            },
        };
        let text = match arguments.text("text") {
            Some(text) => text,
            None => {
                return Err("select_dropdown_option requires text".to_owned());
            },
        };
        set_value(&mut self.typed_values, &concat2("select_", &index), text.clone());
        Ok(
            BrowserStep::Show(
                truncate_output(
                    &concat4("Selected option '", text, "' from dropdown at index ", &index),
                ),
            ),
        )
    }

    fn switch_tab(&self, arguments: &Json) -> (r: Result<BrowserStep, String>)
        ensures
            came_out(
                self.deep_view(),
                self.deep_view(),
                r,
                switch_step(self.deep_view(), arguments.deep_view()),
            ),
    {
        let id: usize = match integer_argument(arguments, "tab_id") {
            Some(id) => id,
            None => {
                return Err("switch_tab requires tab_id".to_owned());
            },
        };
        let i = find_tab(&self.tabs, id);
        if i < self.tabs.len() {
            proof {
                assert(deep(self.tabs@)[i as int] == self.tabs@[i as int].deep_view());
            }
            Ok(BrowserStep::Load { url: self.tabs[i].url.clone(), then: AfterLoad::Switch(id) })
        } else {
            Err(concat3("Tab ", &number_text(id as u64), " not found"))
        }
    }

    fn close_tab(&mut self, arguments: &Json) -> (r: Result<BrowserStep, String>)
        ensures
            came_out(
                old(self).deep_view(),
                final(self).deep_view(),
                r,
                close_step(old(self).deep_view(), arguments.deep_view()),
            ),
    {
        let id: usize = match integer_argument(arguments, "tab_id") {
            Some(id) => id,
            None => self.active_tab_id,
        };
        let tabs = other_tabs(&self.tabs, id);
        let count = tabs.len();
        proof {
            assert(deep(tabs@).len() == tabs@.len());
        }
        if count == 0 {
            self.tabs = tabs;
            self.current_url = String::new();
            self.title = String::new();
            self.html = String::new();
            Ok(
                BrowserStep::Show(
                    truncate_output(&concat3("Closed tab ", &number_text(id as u64), ".")),
                ),
            )
        } else {
            proof {
                assert(deep(tabs@).last() == tabs@.last().deep_view());
            }
            Ok(BrowserStep::Load { url: tabs[count - 1].url.clone(), then: AfterLoad::Close(id) })
        }
    }

    fn extract(&self, arguments: &Json) -> (r: String)
        ensures
            r@ == extract_text(self.deep_view(), arguments.deep_view()),
    {
        let mut output = browser_state_output(self, 200, true);
        if let Some(goal) = arguments.text("goal") {
            output.append(&concat2("\nextraction_goal: ", &truncate_output(goal)));
        }
        truncate_output(&output)
    }

    fn options(&self) -> (r: String)
        ensures
            r@ == shown(pretty_json(options_json(self.html@))),
    {
        let json = Json::object1("options", Json::Array(html_select_options(&self.html)));
        truncate_output(&json.to_pretty_text())
    }

    /// Decides what an action needs, or does it.
    fn act(&mut self, action: &str, arguments: &Json) -> (r: Result<BrowserStep, String>)
        requires
            old(self).deep_view().wf(),
        ensures
            came_out(
                old(self).deep_view(),
                final(self).deep_view(),
                r,
                browser_action(old(self).deep_view(), action@, arguments.deep_view()),
            ),
    {
        let n = self.history.len();
        if same(action, "open") || same(action, "go_to_url") || same(action, "open_tab") {
            match arguments.text("url") {
                Some(url) => Ok(BrowserStep::Load { url: url.clone(), then: AfterLoad::Open }),
                None => Err("browser open requires url".to_owned()),
            }
        } else if same(action, "refresh") {
            if self.current_url.as_str().is_empty() {
                Err("No browser page is open.".to_owned())
            } else {
                Ok(BrowserStep::Load { url: self.current_url.clone(), then: AfterLoad::Stay })
            }
        } else if same(action, "back") || same(action, "go_back") {
            if self.history_index == 0 || n == 0 {
                Err("Browser history has no previous page.".to_owned())
            } else {
                Ok(
                    BrowserStep::Load {
                        url: self.history[self.history_index - 1].clone(),
                        then: AfterLoad::Back,
                    },
                )
            }
        } else if same(action, "forward") {
            if n == 0 || self.history_index >= n - 1 {
                Err("Browser history has no next page.".to_owned())
            } else {
                Ok(
                    BrowserStep::Load {
                        url: self.history[self.history_index + 1].clone(),
                        then: AfterLoad::Forward,
                    },
                )
            }
        } else if same(action, "extract") || same(action, "extract_content") {
            Ok(BrowserStep::Show(self.extract(arguments)))
        } else if same(action, "click") {
            self.click(arguments)
        } else if same(action, "click_element") {
            self.click_element(arguments)
        } else if same(action, "type") || same(action, "input_text") {
            self.type_text(arguments, same(action, "input_text"))
        } else if same(action, "scroll") || same(action, "scroll_down") || same(
            action,
            "scroll_up",
        ) {
            self.scroll(arguments, same(action, "scroll_up"))
        } else if same(action, "scroll_to_text") {
            self.scroll_to_text(arguments)
        } else if same(action, "send_keys") {
            self.send_keys(arguments)
        } else if same(action, "get_dropdown_options") {
            Ok(BrowserStep::Show(self.options()))
        } else if same(action, "select_dropdown_option") {
            self.select(arguments)
        } else if same(action, "web_search") {
            match arguments.text("query") {
                Some(query) => Ok(BrowserStep::Search { query: query.clone() }),
                None => Err("web_search requires query".to_owned()),
            }
        } else if same(action, "wait") {
            let seconds = number_argument(arguments, "seconds", 1);
            Ok(
                BrowserStep::Wait {
                    seconds: if seconds > 30 {
                        30
                    } else {
                        seconds
                    },
                },
            )
        } else if same(action, "switch_tab") {
            self.switch_tab(arguments)
        } else if same(action, "close_tab") {
            self.close_tab(arguments)
        } else if same(action, "screenshot") {
            Ok(BrowserStep::Screenshot)
        } else {
            Err(concat2("Unsupported browser action: ", action))
        }
    }

    /// Decides what a call of the tool needs, or does it. A call that fails, and one that needs
    /// a page first, leaves the session as it is.
    pub fn step(&mut self, arguments: &Json) -> (r: Result<BrowserStep, String>)
        requires
            old(self).deep_view().wf(),
        ensures
            came_out(
                old(self).deep_view(),
                final(self).deep_view(),
                r,
                browser_step(old(self).deep_view(), arguments.deep_view()),
            ),
            final(self).deep_view().wf(),
            match r {
                Ok(BrowserStep::Load { url, then }) => can_arrive(final(self).deep_view(), then),
                _ => true,
            },
    {
        let ghost before = self.deep_view();
        match arguments.text("action") {
            Some(action) => {
                proof {
                    law_session_stays_sound(before, arguments.deep_view());
                }
                self.act(action, arguments)
            },
            None => Err("rust_browser_use requires action".to_owned()),
        }
    }
}

/// What a call of the tool does.
pub open spec fn browser_step(s: SessionModel, a: JsonModel) -> Outcome {
    match a.text("action"@) {
        Some(action) => browser_action(s, action, a),
        None => Err("rust_browser_use requires action"@),
    }
}

/// Whether an outcome leaves a sound session, and one that can take the page that is needed.
pub open spec fn is_sound(s: SessionModel, outcome: Outcome) -> bool {
    match outcome {
        Ok((next, step)) => next.wf() && match step {
            StepModel::Show(_) => true,
            StepModel::Load { url, then } => next == s && can_arrive(s, then),
            _ => next == s,
        },
        Err(_) => true,
    }
}

proof fn lemma_pages_are_sound(s: SessionModel, a: JsonModel)
    requires
        s.wf(),
    ensures
        is_sound(s, open_step(s, a)),
        is_sound(s, click_step(s, a)),
        is_sound(s, click_element_step(s, a)),
        is_sound(s, switch_step(s, a)),
        is_sound(s, close_step(s, a)),
{
}

proof fn lemma_inputs_are_sound(s: SessionModel, a: JsonModel, flag: bool)
    requires
        s.wf(),
    ensures
        is_sound(s, type_step(s, a, flag)),
        is_sound(s, scroll_step(s, a, flag)),
        is_sound(s, scroll_to_text_step(s, a)),
        is_sound(s, keys_step(s, a)),
        is_sound(s, select_step(s, a)),
{
}

/// A call leaves a sound session. Where it needs a page, the session stays as it is until the
/// page is there, and the page can then be taken.
pub proof fn law_session_stays_sound(s: SessionModel, a: JsonModel)
    requires
        s.wf(),
    ensures
        is_sound(s, browser_step(s, a)),
{
    lemma_pages_are_sound(s, a);
    lemma_inputs_are_sound(s, a, true);
    lemma_inputs_are_sound(s, a, false);
}

/// A page that is taken leaves a sound session.
pub proof fn law_arriving_keeps_the_session_sound(
    s: SessionModel,
    then: AfterLoad,
    url: Seq<char>,
    html: Seq<char>,
)
    requires
        s.wf(),
        s.history.len() < usize::MAX,
        can_arrive(s, then),
    ensures
        arrived(s, then, url, html).wf(),
        arrived(s, then, url, html).current_url == url,
        arrived(s, then, url, html).html == html,
{
}

/// After a visit the step back leads to the page that was open before it, and the step forward
/// from there to the visited page again.
pub proof fn law_back_undoes_a_visit(
    s: SessionModel,
    url: Seq<char>,
    html: Seq<char>,
    old_html: Seq<char>,
)
    requires
        s.wf(),
        0 < s.history.len() < usize::MAX,
    ensures
        ({
            let there = arrived(s, AfterLoad::Visit, url, html);
            let page = s.history[s.history_index as int];
            let back = arrived(there, AfterLoad::Back, page, old_html);
            &&& can_arrive(there, AfterLoad::Back)
            &&& there.history[there.history_index - 1] == page
            &&& back.history_index == s.history_index
            &&& back.current_url == page
            &&& can_arrive(back, AfterLoad::Forward)
            &&& back.history[back.history_index + 1] == url
        }),
{
}

} // verus!
