//! The search of the web and the reading of pages.
//!
//! The pages are fetched outside the library. What is asked for, which page comes next, what is
//! taken from a page and what is reported is decided here.

use vstd::prelude::*;

use crate::coding::arguments::{argument_flag, flag_argument};
use crate::coding::limits::{truncate_output, MAX_OUTPUT_CHARS, OUTPUT_NOTE};
use crate::deep::{deep, group_deep};
use crate::json::{group_json, num, Json, JsonModel, Members};
use crate::json_text::pretty_json;
use crate::number::{decimal, number_text};
use crate::text::{
    blank, begins_with, concat2, concat3, concat4, contains, has_part, is_blank, noted, same, split_words,
    starts_with, words,
};
use crate::tools::html::{
    html_links, html_text, html_title, page_links, page_text, page_title, percent_encode,
    percent_encoded,
};

verus! {

broadcast use {group_deep, group_json};

/// What is shown of a text: as much as an output may hold.
pub open spec fn shown(text: Seq<char>) -> Seq<char> {
    noted(text, MAX_OUTPUT_CHARS as nat, OUTPUT_NOTE@)
}

// ---- search ----

/// What a search asks for.
#[derive(Debug, PartialEq, Eq)]
pub struct SearchRequest {
    pub query: String,
    pub number: u64,
    pub fetch_content: bool,
}

/// How many results are asked for: 5 where nothing is said, and from 1 to 10 in any case.
pub open spec fn wanted_results(arguments: JsonModel) -> u64 {
    match arguments.get("num_results"@) {
        Some(value) => match value.as_u64() {
            Some(n) => if n < 1 {
                1
            } else if n > 10 {
                10
            } else {
                n
            },
            None => 5,
        },
        None => 5,
    }
}

/// What a search asks for.
pub fn search_request(arguments: &Json) -> (r: Result<SearchRequest, String>)
    ensures
        match arguments.deep_view().text("query"@) {
            None => r is Err && r->Err_0@ == "rust_web_search requires query"@,
            Some(query) => {
                &&& r is Ok
                &&& r->Ok_0.query@ == query
                &&& r->Ok_0.number == wanted_results(arguments.deep_view())
                &&& r->Ok_0.fetch_content == argument_flag(
                    arguments.deep_view(),
                    "fetch_content"@,
                    false,
                )
            },
        },
{
    let query = match arguments.text("query") {
        Some(query) => query.clone(),
        None => {
            return Err("rust_web_search requires query".to_owned());
        },
    };
    let asked: u64 = match arguments.get("num_results") {
        Some(value) => match value.as_u64() {
            Some(n) => n,
            None => 5,
        },
        None => 5,
    };
    let number: u64 = if asked < 1 {
        1
    } else if asked > 10 {
        10
    } else {
        asked
    };
    Ok(
        SearchRequest {
            query,
            number,
            fetch_content: flag_argument(arguments, "fetch_content", false),
        },
    )
}

/// The engines that are asked, one after the other, and the page of each.
pub open spec fn engine_list(query: Seq<char>, number: u64) -> Seq<(Seq<char>, Seq<char>)> {
    let encoded = percent_encoded(vstd::utf8::encode_utf8(query));
    let n = decimal(number as nat);
    seq![
        ("duckduckgo"@, "https://html.duckduckgo.com/html/?q="@ + encoded),
        ("bing"@, "https://www.bing.com/search?q="@ + encoded + "&count="@ + n),
        ("google"@, "https://www.google.com/search?q="@ + encoded + "&num="@ + n),
        ("baidu"@, "https://www.baidu.com/s?wd="@ + encoded),
    ]
}

/// The engines that are asked, one after the other, and the page of each.
pub fn search_engines(query: &str, number: u64) -> (r: Vec<(String, String)>)
    ensures
        deep(r@) == engine_list(query@, number),
{
    let encoded = percent_encode(query);
    let n = number_text(number);
    let mut r: Vec<(String, String)> = Vec::new();
    r.push(("duckduckgo".to_owned(), concat2("https://html.duckduckgo.com/html/?q=", &encoded)));
    r.push(("bing".to_owned(), concat4("https://www.bing.com/search?q=", &encoded, "&count=", &n)));
    r.push(
        ("google".to_owned(), concat4("https://www.google.com/search?q=", &encoded, "&num=", &n)),
    );
    r.push(("baidu".to_owned(), concat2("https://www.baidu.com/s?wd=", &encoded)));
    proof {
        assert(deep(r@) =~= engine_list(query@, number));
    }
    r
}

/// Whether a link of an engine's page is a result: it has a title and leads away from the
/// engines.
pub open spec fn is_result(link: (Seq<char>, Seq<char>)) -> bool {
    &&& !is_blank(link.0)
    &&& begins_with(link.1, "http"@)
    &&& !has_part(link.1, "duckduckgo.com"@)
    &&& !has_part(link.1, "bing.com"@)
    &&& !has_part(link.1, "google.com"@)
    &&& !has_part(link.1, "baidu.com"@)
}

/// The results among the links: one that leads to the same page as the result before it is
/// left out.
pub open spec fn results_of(links: Seq<(Seq<char>, Seq<char>)>) -> Seq<(Seq<char>, Seq<char>)>
    decreases links.len(),
{
    if links.len() == 0 {
        Seq::empty()
    } else {
        let head = results_of(links.drop_last());
        let link = links.last();
        if !is_result(link) || (head.len() > 0 && head.last().1 == link.1) {
            head
        } else {
            head.push(link)
        }
    }
}

/// At most the first `n` items.
pub open spec fn at_most<T>(s: Seq<T>, n: nat) -> Seq<T> {
    if s.len() <= n {
        s
    } else {
        s.take(n as int)
    }
}

fn result_link(link: &(String, String)) -> (r: bool)
    ensures
        r == is_result(link.deep_view()),
{
    !blank(&link.0) && starts_with(&link.1, "http") && !contains(&link.1, "duckduckgo.com")
        && !contains(&link.1, "bing.com") && !contains(&link.1, "google.com") && !contains(
        &link.1,
        "baidu.com",
    )
}

/// The results on an engine's page, at most `number` of them.
pub fn search_candidates(html: &str, url: &str, number: u64) -> (r: Vec<(String, String)>)
    requires
        number <= 10,
    ensures
        deep(r@) == at_most(results_of(page_links(html@, url@)), number as nat),
{
    let links = html_links(html, url);
    let ghost models = deep(links@);
    let mut r: Vec<(String, String)> = Vec::new();
    let mut i: usize = 0;
    proof {
        assert(models.take(0) =~= Seq::<(Seq<char>, Seq<char>)>::empty());
        assert(deep(r@) =~= Seq::<(Seq<char>, Seq<char>)>::empty());
    }
    while i < links.len()
        invariant
            i <= links@.len(),
            models == deep(links@),
            deep(r@) == results_of(models.take(i as int)),
        decreases links@.len() - i,
    {
        proof {
            assert(models.take(i + 1).drop_last() =~= models.take(i as int));
            assert(models.take(i + 1).last() == links@[i as int].deep_view());
            if r@.len() > 0 {
                assert(deep(r@).last() == r@.last().deep_view());
            }
        }
        if result_link(&links[i]) {
            let n = r.len();
            if n == 0 || !same(&r[n - 1].1, &links[i].1) {
                let link = (links[i].0.clone(), links[i].1.clone());
                r.push(link);
            }
        }
        i += 1;
    }
    proof {
        assert(models.take(models.len() as int) =~= models);
    }
    if r.len() > number as usize {
        r.truncate(number as usize);
        proof {
            assert(deep(r@) =~= results_of(models).take(number as int));
        }
    }
    r
}

/// One result of a search.
pub open spec fn result_json(
    position: nat,
    link: (Seq<char>, Seq<char>),
    engine: Seq<char>,
    page: Option<Seq<char>>,
) -> JsonModel {
    JsonModel::Object(
        seq![
            ("position"@, num(position)),
            ("title"@, JsonModel::Str(link.0)),
            ("url"@, JsonModel::Str(link.1)),
            ("description"@, JsonModel::Str(""@)),
            ("source"@, JsonModel::Str(engine)),
            (
                "raw_content"@,
                match page {
                    Some(page) => JsonModel::Str(shown(page_text(page))),
                    None => JsonModel::Null,
                },
            ),
        ],
    )
}

/// The page that was fetched for the result at `i`, if any.
pub open spec fn page_at(pages: Seq<Option<Seq<char>>>, i: int) -> Option<Seq<char>> {
    if 0 <= i < pages.len() {
        pages[i]
    } else {
        None
    }
}

/// The report of a search that found something.
pub open spec fn search_report_json(
    query: Seq<char>,
    engine: Seq<char>,
    links: Seq<(Seq<char>, Seq<char>)>,
    pages: Seq<Option<Seq<char>>>,
) -> JsonModel {
    JsonModel::Object(
        seq![
            ("query"@, JsonModel::Str(query)),
            ("source"@, JsonModel::Str(engine)),
            ("total_results"@, num(links.len())),
            (
                "results"@,
                JsonModel::Array(
                    Seq::new(
                        links.len(),
                        |i: int| result_json((i + 1) as nat, links[i], engine, page_at(pages, i)),
                    ),
                ),
            ),
        ],
    )
}

fn result_value(
    position: u64,
    link: &(String, String),
    engine: &str,
    page: Option<&String>,
) -> (r: Json)
    ensures
        r.deep_view() == result_json(
            position as nat,
            link.deep_view(),
            engine@,
            match page {
                Some(page) => Some(page@),
                None => None,
            },
        ),
{
    let content = match page {
        Some(page) => Json::string(&truncate_output(&html_text(page))),
        None => Json::Null,
    };
    let members = Members::new().with("position", Json::number(position)).with(
        "title",
        Json::string(&link.0),
    ).with("url", Json::string(&link.1)).with("description", Json::string("")).with(
        "source",
        Json::string(engine),
    ).with("raw_content", content);
    proof {
        assert(members.model() =~= result_json(
            position as nat,
            link.deep_view(),
            engine@,
            match page {
                Some(page) => Some(page@),
                None => None,
            },
        )->Object_0);
    }
    members.object()
}

/// The report of a search that found something on the page of `engine`. `pages` holds the page
/// of each result, where it was fetched.
pub fn search_report(
    query: &str,
    engine: &str,
    links: &Vec<(String, String)>,
    pages: &Vec<Option<String>>,
) -> (r: String)
    ensures
        r@ == shown(
            pretty_json(search_report_json(query@, engine@, deep(links@), deep(pages@))),
        ),
{
    let n = links.len();
    let mut results: Vec<Json> = Vec::new();
    let mut i: usize = 0;
    while i < n
        invariant
            n == links@.len(),
            i <= n,
            results@.len() == i,
            forall|k: int|
                0 <= k < i ==> #[trigger] deep(results@)[k] == result_json(
                    (k + 1) as nat,
                    deep(links@)[k],
                    engine@,
                    page_at(deep(pages@), k),
                ),
        decreases n - i,
    {
        let page = if i < pages.len() {
            proof {
                assert(deep(pages@)[i as int] == pages@[i as int].deep_view());
            }
            pages[i].as_ref()
        } else {
            None
        };
        let result = result_value(i as u64 + 1, &links[i], engine, page);
        let ghost before = deep(results@);
        results.push(result);
        proof {
            assert(deep(results@) == before.push(result.deep_view()));
            assert(deep(links@)[i as int] == links@[i as int].deep_view());
        }
        i += 1;
    }
    let ghost wanted = search_report_json(query@, engine@, deep(links@), deep(pages@));
    proof {
        assert(deep(results@) =~= wanted->Object_0[3].1->Array_0);
    }
    let members = Members::new().with("query", Json::string(query)).with(
        "source",
        Json::string(engine),
    ).with("total_results", Json::number(n as u64)).with("results", Json::Array(results));
    proof {
        assert(members.model() =~= wanted->Object_0);
    }
    truncate_output(&members.object().to_pretty_text())
}

/// A search that goes from engine to engine until one has results.
#[derive(Debug, PartialEq, Eq)]
pub struct WebSearch {
    pub query: String,
    pub number: u64,
    pub engine: usize,
    pub fallback: String,
}

impl WebSearch {
    pub open spec fn wf(&self) -> bool {
        self.engine <= 4 && 1 <= self.number <= 10
    }

    pub fn new(request: &SearchRequest) -> (r: Self)
        requires
            1 <= request.number <= 10,
        ensures
            r.wf(),
            r.query@ == request.query@,
            r.number == request.number,
            r.engine == 0,
            r.fallback@ == ""@,
    {
        WebSearch {
            query: request.query.clone(),
            number: request.number,
            engine: 0,
            fallback: "".to_owned(),
        }
    }

    /// The engine that is asked next, and its page; nothing where all were asked.
    pub fn next_engine(&self) -> (r: Option<(String, String)>)
        requires
            self.wf(),
        ensures
            r.deep_view() == if self.engine < 4 {
                Some(engine_list(self.query@, self.number)[self.engine as int])
            } else {
                None
            },
    {
        if self.engine >= 4 {
            return None;
        }
        let engines = search_engines(&self.query, self.number);
        proof {
            assert(deep(engines@).len() == engines@.len());
            assert(deep(engines@)[self.engine as int]
                == engines@[self.engine as int].deep_view());
        }
        Some((engines[self.engine].0.clone(), engines[self.engine].1.clone()))
    }

    /// The engine's page could not be fetched.
    pub fn skip_engine(&mut self)
        requires
            old(self).wf(),
            old(self).engine < 4,
        ensures
            final(self).wf(),
            *final(self) == (WebSearch { engine: (old(self).engine + 1) as usize, ..*old(self) }),
    {
        self.engine = self.engine + 1;
    }

    /// Takes the engine's page: its results, if there are any. Where there are none the search
    /// goes on to the next engine, and keeps the text of the page.
    pub fn take_page(&mut self, url: &str, html: &str) -> (r: Vec<(String, String)>)
        requires
            old(self).wf(),
            old(self).engine < 4,
        ensures
            final(self).wf(),
            deep(r@) == at_most(
                results_of(page_links(html@, url@)),
                old(self).number as nat,
            ),
            final(self).query@ == old(self).query@,
            final(self).number == old(self).number,
            final(self).fallback@ == page_text(html@),
            final(self).engine == old(self).engine + (if r@.len() == 0 {
                1int
            } else {
                0
            }),
    {
        self.fallback = html_text(html);
        let found = search_candidates(html, url, self.number);
        if found.len() == 0 {
            self.engine = self.engine + 1;
        }
        found
    }

    /// The report of a search that found nothing: the text of the last page that was fetched.
    pub fn no_results(&self) -> (r: String)
        ensures
            r@ == "No parsed search results for '"@ + self.query@ + "'.\n"@ + shown(self.fallback@),
    {
        concat4(
            "No parsed search results for '",
            &self.query,
            "'.\n",
            &truncate_output(&self.fallback),
        )
    }
}

proof fn lemma_results_are_results(links: Seq<(Seq<char>, Seq<char>)>, i: int)
    requires
        0 <= i < results_of(links).len(),
    ensures
        is_result(results_of(links)[i]),
    decreases links.len(),
{
    let head = results_of(links.drop_last());
    if i < head.len() {
        lemma_results_are_results(links.drop_last(), i);
    }
}

proof fn lemma_results_differ(links: Seq<(Seq<char>, Seq<char>)>, i: int)
    requires
        0 <= i < results_of(links).len() - 1,
    ensures
        results_of(links)[i].1 != results_of(links)[i + 1].1,
    decreases links.len(),
{
    let head = results_of(links.drop_last());
    if i + 1 < head.len() {
        lemma_results_differ(links.drop_last(), i);
    }
}

/// No more results are taken than were asked for, each is one, and no two that follow each other
/// lead to the same page.
pub proof fn law_results_are_what_was_asked_for(
    links: Seq<(Seq<char>, Seq<char>)>,
    number: nat,
    i: int,
)
    ensures
        ({
            let found = at_most(results_of(links), number);
            &&& found.len() <= number
            &&& 0 <= i < found.len() ==> is_result(found[i])
            &&& 0 <= i < found.len() - 1 ==> found[i].1 != found[i + 1].1
        }),
{
    let found = at_most(results_of(links), number);
    if 0 <= i < found.len() {
        lemma_results_are_results(links, i);
    }
    if 0 <= i < found.len() - 1 {
        lemma_results_differ(links, i);
    }
}

// ---- crawl ----

/// How many pages are read in one go.
pub const MAX_PAGES: usize = 8;

/// What the reading of pages asks for.
#[derive(Debug, PartialEq, Eq)]
pub struct CrawlRequest {
    pub urls: Vec<String>,
    pub threshold: usize,
    pub timeout_secs: u64,
    pub bypass_cache: bool,
}

/// The texts among the items of an array.
pub open spec fn texts_of(items: Seq<JsonModel>) -> Seq<Seq<char>>
    decreases items.len(),
{
    if items.len() == 0 {
        Seq::empty()
    } else {
        match items.last() {
            JsonModel::Str(text) => texts_of(items.drop_last()).push(text),
            _ => texts_of(items.drop_last()),
        }
    }
}

/// The texts among the items of an array.
pub fn texts(items: &Vec<Json>) -> (r: Vec<String>)
    ensures
        deep(r@) == texts_of(deep(items@)),
{
    let ghost models = deep(items@);
    let mut r: Vec<String> = Vec::new();
    let mut i: usize = 0;
    proof {
        assert(models.take(0) =~= Seq::<JsonModel>::empty());
        assert(deep(r@) =~= Seq::<Seq<char>>::empty());
    }
    while i < items.len()
        invariant
            models == deep(items@),
            i <= items@.len(),
            deep(r@) == texts_of(models.take(i as int)),
        decreases items@.len() - i,
    {
        proof {
            assert(models.take(i + 1).drop_last() =~= models.take(i as int));
            assert(models.take(i + 1).last() == items@[i as int].deep_view());
        }
        if let Json::Str(text) = &items[i] {
            r.push(text.clone());
        }
        i += 1;
    }
    proof {
        assert(models.take(models.len() as int) =~= models);
    }
    r
}

/// The pages that are asked for; none where the argument is neither a text nor an array.
pub open spec fn asked_urls(arguments: JsonModel) -> Option<Seq<Seq<char>>> {
    match arguments.get("urls"@) {
        Some(JsonModel::Str(url)) => Some(seq![url]),
        Some(JsonModel::Array(items)) => Some(texts_of(items)),
        _ => None,
    }
}

/// The number of an argument, or `default`.
pub open spec fn number_or(arguments: JsonModel, key: Seq<char>, default: u64) -> u64 {
    match arguments.get(key) {
        Some(value) => match value.as_u64() {
            Some(n) => n,
            None => default,
        },
        None => default,
    }
}

/// The number of an argument, or `default`.
pub fn number_argument(arguments: &Json, key: &str, default: u64) -> (r: u64)
    ensures
        r == number_or(arguments.deep_view(), key@, default),
{
    match arguments.get(key) {
        Some(value) => match value.as_u64() {
            Some(n) => n,
            None => default,
        },
        None => default,
    }
}

/// How long a page may take: from 5 to 120 seconds.
pub open spec fn crawl_seconds(arguments: JsonModel) -> u64 {
    let n = number_or(arguments, "timeout"@, 30);
    if n < 5 {
        5
    } else if n > 120 {
        120
    } else {
        n
    }
}

/// What the reading of pages asks for.
pub fn crawl_request(arguments: &Json) -> (r: Result<CrawlRequest, String>)
    ensures
        match asked_urls(arguments.deep_view()) {
            None => r is Err && r->Err_0@
                == "rust_crawl4ai requires urls as a string or array"@,
            Some(urls) => if urls.len() == 0 {
                r is Err && r->Err_0@ == "rust_crawl4ai requires at least one URL"@
            } else {
                &&& r is Ok
                &&& deep(r->Ok_0.urls@) == at_most(urls, MAX_PAGES as nat)
                &&& r->Ok_0.threshold == number_or(
                    arguments.deep_view(),
                    "word_count_threshold"@,
                    10,
                ) as usize
                &&& r->Ok_0.timeout_secs == crawl_seconds(arguments.deep_view())
                &&& r->Ok_0.bypass_cache == argument_flag(
                    arguments.deep_view(),
                    "bypass_cache"@,
                    false,
                )
            },
        },
{
    let mut urls: Vec<String> = match arguments.get("urls") {
        Some(Json::Str(url)) => {
            let mut urls: Vec<String> = Vec::new();
            urls.push(url.clone());
            proof {
                assert(deep(urls@) =~= seq![url@]);
            }
            urls
        },
        Some(Json::Array(items)) => texts(items),
        _ => {
            return Err("rust_crawl4ai requires urls as a string or array".to_owned());
        },
    };
    let ghost all = asked_urls(arguments.deep_view())->0;
    proof {
        assert(deep(urls@) == all);
        assert(deep(urls@).len() == urls@.len());
    }
    if urls.len() == 0 {
        return Err("rust_crawl4ai requires at least one URL".to_owned());
    }
    if urls.len() > MAX_PAGES {
        urls.truncate(MAX_PAGES);
        proof {
            assert(deep(urls@) =~= all.take(MAX_PAGES as int));
        }
    }
    let seconds = number_argument(arguments, "timeout", 30);
    let timeout_secs: u64 = if seconds < 5 {
        5
    } else if seconds > 120 {
        120
    } else {
        seconds
    };
    Ok(
        CrawlRequest {
            urls,
            threshold: number_argument(arguments, "word_count_threshold", 10) as usize,
            timeout_secs,
            bypass_cache: flag_argument(arguments, "bypass_cache", false),
        },
    )
}

/// Whether a status says that a request succeeded.
pub open spec fn is_success(status: u16) -> bool {
    200 <= status < 300
}

/// What is reported of a page that was read. A page with few words is reported with its text
/// alone.
pub open spec fn crawled_json(
    url: Seq<char>,
    status: u16,
    html: Seq<char>,
    threshold: nat,
    bypass_cache: bool,
) -> JsonModel {
    let text = page_text(html);
    let count = words(text).len();
    if count >= threshold {
        JsonModel::Object(
            seq![
                ("url"@, JsonModel::Str(url)),
                ("success"@, JsonModel::Bool(is_success(status))),
                ("status_code"@, num(status as nat)),
                ("title"@, JsonModel::Str(page_title(html))),
                ("markdown"@, JsonModel::Str(shown(text))),
                ("word_count"@, num(count)),
                ("links_count"@, num(page_links(html, url).len())),
                ("cache_bypassed"@, JsonModel::Bool(bypass_cache)),
            ],
        )
    } else {
        JsonModel::Object(
            seq![
                ("url"@, JsonModel::Str(url)),
                ("success"@, JsonModel::Bool(is_success(status))),
                ("status_code"@, num(status as nat)),
                ("word_count"@, num(count)),
                ("markdown"@, JsonModel::Str(text)),
                ("cache_bypassed"@, JsonModel::Bool(bypass_cache)),
            ],
        )
    }
}

/// What is reported of a page that was read.
pub fn crawled_page(
    url: &str,
    status: u16,
    html: &str,
    threshold: usize,
    bypass_cache: bool,
) -> (r: Json)
    ensures
        r.deep_view() == crawled_json(url@, status, html@, threshold as nat, bypass_cache),
{
    let text = html_text(html);
    let all = split_words(&text);
    let count = all.len();
    proof {
        assert(deep(all@).len() == count);
    }
    let success = status >= 200 && status < 300;
    let ghost wanted = crawled_json(url@, status, html@, threshold as nat, bypass_cache);
    if count >= threshold {
        let links = html_links(html, url);
        proof {
            assert(deep(links@).len() == links@.len());
        }
        let members = Members::new().with("url", Json::string(url)).with(
            "success",
            Json::Bool(success),
        ).with("status_code", Json::number(status as u64)).with(
            "title",
            Json::string(&html_title(html)),
        ).with("markdown", Json::string(&truncate_output(&text))).with(
            "word_count",
            Json::number(count as u64),
        ).with("links_count", Json::number(links.len() as u64)).with(
            "cache_bypassed",
            Json::Bool(bypass_cache),
        );
        proof {
            assert(members.model() =~= wanted->Object_0);
        }
        members.object()
    } else {
        let members = Members::new().with("url", Json::string(url)).with(
            "success",
            Json::Bool(success),
        ).with("status_code", Json::number(status as u64)).with(
            "word_count",
            Json::number(count as u64),
        ).with("markdown", Json::string(&text)).with("cache_bypassed", Json::Bool(bypass_cache));
        proof {
            assert(members.model() =~= wanted->Object_0);
        }
        members.object()
    }
}

/// What is reported of a page that could not be read.
pub open spec fn failed_json(url: Seq<char>, error: Seq<char>) -> JsonModel {
    JsonModel::Object(
        seq![
            ("url"@, JsonModel::Str(url)),
            ("success"@, JsonModel::Bool(false)),
            ("error_message"@, JsonModel::Str(error)),
        ],
    )
}

/// What is reported of a page that could not be read.
pub fn failed_page(url: &str, error: &str) -> (r: Json)
    ensures
        r.deep_view() == failed_json(url@, error@),
{
    let members = Members::new().with("url", Json::string(url)).with(
        "success",
        Json::Bool(false),
    ).with("error_message", Json::string(error));
    proof {
        assert(members.model() =~= failed_json(url@, error@)->Object_0);
    }
    members.object()
}

/// What is reported of a page that took too long.
pub fn late_page(url: &str, timeout_secs: u64) -> (r: Json)
    ensures
        r.deep_view() == failed_json(
            url@,
            "crawl timed out after "@ + decimal(timeout_secs as nat) + "s"@,
        ),
{
    failed_page(url, &concat3("crawl timed out after ", &number_text(timeout_secs), "s"))
}

/// The report on the pages.
pub open spec fn crawl_report_json(pages: Seq<JsonModel>) -> JsonModel {
    JsonModel::Object(
        seq![
            ("crawler"@, JsonModel::Str("RustPilot lightweight Crawl4AI-compatible"@)),
            ("results"@, JsonModel::Array(pages)),
        ],
    )
}

/// The report on the pages.
pub fn crawl_report(pages: Vec<Json>) -> (r: String)
    ensures
        r@ == shown(pretty_json(crawl_report_json(deep(pages@)))),
{
    let ghost wanted = crawl_report_json(deep(pages@));
    let members = Members::new().with(
        "crawler",
        Json::string("RustPilot lightweight Crawl4AI-compatible"),
    ).with("results", Json::Array(pages));
    proof {
        assert(members.model() =~= wanted->Object_0);
    }
    truncate_output(&members.object().to_pretty_text())
}

} // verus!
