//! The HTTP tool.

use vstd::prelude::*;

use crate::coding::limits::{truncate_output, MAX_OUTPUT_CHARS, OUTPUT_NOTE};
use crate::deep::{deep, group_deep};
use crate::json::{group_json, Json, JsonModel};
use crate::json_text::compact_json;
use crate::text::noted;

verus! {

broadcast use {group_deep, group_json};

/// A request that is to be sent.
#[derive(Debug, PartialEq, Eq)]
pub struct HttpRequest {
    pub url: String,
    pub method: String,
    pub headers: Vec<(String, String)>,
    pub body: Option<String>,
}

/// The value of a header: the text of a string, the JSON text of anything else.
pub open spec fn header_text(value: JsonModel) -> Seq<char> {
    match value {
        JsonModel::Str(text) => text,
        _ => compact_json(value),
    }
}

/// The headers that a call asks for.
pub open spec fn header_list(arguments: JsonModel) -> Seq<(Seq<char>, Seq<char>)> {
    match arguments.get("headers"@) {
        Some(JsonModel::Object(members)) => members.map_values(
            |m: (Seq<char>, JsonModel)| (m.0, header_text(m.1)),
        ),
        _ => Seq::empty(),
    }
}

fn header_value(value: &Json) -> (r: String)
    ensures
        r@ == header_text(value.deep_view()),
{
    match value {
        Json::Str(text) => text.clone(),
        _ => value.to_text(),
    }
}

/// The request that a call asks for.
pub fn http_request(arguments: &Json) -> (r: Result<HttpRequest, String>)
    ensures
        match arguments.deep_view().text("url"@) {
            None => r is Err && r->Err_0@ == "rust_http requires a URL"@,
            Some(url) => {
                &&& r is Ok
                &&& r->Ok_0.url@ == url
                &&& r->Ok_0.method@ == arguments.deep_view().text_or("method"@, "GET"@)
                &&& deep(r->Ok_0.headers@) == header_list(arguments.deep_view())
                &&& r->Ok_0.body.deep_view() == arguments.deep_view().text("body"@)
            },
        },
{
    let url = match arguments.text("url") {
        Some(url) => url.clone(),
        None => {
            return Err("rust_http requires a URL".to_owned());
        },
    };
    let mut headers: Vec<(String, String)> = Vec::new();
    match arguments.get("headers") {
        Some(Json::Object(members)) => {
            let mut i: usize = 0;
            while i < members.len()
                invariant
                    i <= members@.len(),
                    headers@.len() == i,
                    forall|k: int|
                        0 <= k < i ==> #[trigger] deep(headers@)[k] == (
                            deep(members@)[k].0,
                            header_text(deep(members@)[k].1),
                        ),
                decreases members@.len() - i,
            {
                let header = (members[i].0.clone(), header_value(&members[i].1));
                let ghost before = deep(headers@);
                headers.push(header);
                proof {
                    assert(deep(headers@) == before.push(header.deep_view()));
                    assert(deep(members@)[i as int] == members@[i as int].deep_view());
                }
                i += 1;
            }
            proof {
                assert(deep(headers@) =~= deep(members@).map_values(
                    |m: (Seq<char>, JsonModel)| (m.0, header_text(m.1)),
                ));
            }
        },
        _ => {
            proof {
                assert(deep(headers@) =~= Seq::<(Seq<char>, Seq<char>)>::empty());
            }
        },
    }
    let body = match arguments.text("body") {
        Some(body) => Some(body.clone()),
        None => None,
    };
    Ok(HttpRequest { url, method: arguments.text_or("method", "GET"), headers, body })
}

/// What is shown of a response.
pub fn http_report(status: &str, body: &str) -> (r: String)
    ensures
        r@ == noted(
            "HTTP "@ + status@ + "\n\n"@ + body@,
            MAX_OUTPUT_CHARS as nat,
            OUTPUT_NOTE@,
        ),
{
    let mut text = "HTTP ".to_owned();
    text.append(status);
    text.append("\n\n");
    text.append(body);
    truncate_output(&text)
}

} // verus!
