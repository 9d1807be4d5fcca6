//! Requests to and answers from the HTTP interfaces of providers.
use vstd::prelude::*;
use crate::json::{json_views, Json, JsonTree};
use crate::model::provider::{ChatMessage, ChatRequest};
use crate::providers::error::{kind_of_status, ProviderError};
use crate::providers::openai_proto::role_content;
use crate::text::{
    nat_at_most, opt_str, parse_nat, str_trim_end_char, texts, trim_end_char,
};

verus! {

/// A request to be sent: headers in the order in which they are added.
pub struct ProviderRequest {
    pub url: String,
    pub headers: Vec<(String, String)>,
    pub body: Json,
}

pub struct RequestView {
    pub url: Seq<char>,
    pub headers: Seq<(Seq<char>, Seq<char>)>,
    pub body: JsonTree,
}

pub open spec fn header_views(s: Seq<(String, String)>) -> Seq<(Seq<char>, Seq<char>)> {
    Seq::new(s.len(), |i: int| (s[i].0@, s[i].1@))
}

impl View for ProviderRequest {
    type V = RequestView;

    open spec fn view(&self) -> RequestView {
        RequestView { url: self.url@, headers: header_views(self.headers@), body: self.body@ }
    }
}

/// Adds a header.
pub fn push_header(headers: &mut Vec<(String, String)>, name: &str, value: &str)
    ensures
        header_views(final(headers)@) == header_views(old(headers)@).push((name@, value@)),
{
    let ghost before = headers@;
    headers.push((name.to_owned(), value.to_owned()));
    proof {
        assert(header_views(headers@) =~= header_views(before).push((name@, value@)));
    }
}

/// The address that requests start from: the given one or the usual one, no
/// slash at its end.
pub open spec fn base_of(url: Option<Seq<char>>, usual: Seq<char>) -> Seq<char> {
    trim_end_char(
        match url {
            Some(u) => u,
            None => usual,
        },
        '/',
    )
}

/// The address that requests start from.
pub fn base_url(url: Option<&str>, usual: &str) -> (r: String)
    ensures
        r@ == base_of(opt_str(url), usual@),
{
    match url {
        Some(u) => str_trim_end_char(u, '/'),
        None => str_trim_end_char(usual, '/'),
    }
}

/// The value of a `Retry-After` header that is a number of seconds.
pub open spec fn retry_after(header: Option<Seq<char>>) -> Option<nat> {
    match header {
        Some(h) => nat_at_most(h, u64::MAX as nat),
        None => None,
    }
}

/// The failure that an answer without success stands for.
pub fn response_failure(status: u16, retry_after_header: Option<&str>, body: &str) -> (r:
    ProviderError)
    ensures
        r.status == status,
        r.kind == kind_of_status(status),
        r.message@ == body@,
        match retry_after(opt_str(retry_after_header)) {
            Some(n) => r.retry_after_secs == Some(n as u64),
            None => r.retry_after_secs is None,
        },
{
    let secs: Option<u64> = match retry_after_header {
        Some(h) => parse_nat(h, u64::MAX),
        None => None,
    };
    ProviderError::from_status(status, body, secs)
}

/// The turns of a request without tools and images, the system prompt first.
pub open spec fn plain_messages_tree(
    messages: Seq<ChatMessage>,
    system: Option<&str>,
) -> Seq<JsonTree> {
    let turns = Seq::new(
        messages.len(),
        |i: int| role_content(messages[i].role@, JsonTree::Str(messages[i].content@)),
    );
    match system {
        Some(s) => seq![role_content("system"@, JsonTree::Str(s@))] + turns,
        None => turns,
    }
}

/// The turns of a request by their roles and texts alone.
pub fn build_plain_messages(req: &ChatRequest<'_>) -> (r: Vec<Json>)
    ensures
        json_views(r@) == plain_messages_tree(req.messages@, req.system),
{
    let mut v: Vec<Json> = Vec::new();
    if let Some(s) = req.system {
        v.push(Json::obj().with("role", Json::text("system")).with("content", Json::text(s)));
    }
    let start: usize = v.len();
    let ghost head = v@;
    let mut i: usize = 0;
    while i < req.messages.len()
        invariant
            i <= req.messages@.len(),
            start == head.len(),
            v@.len() == start + i,
            forall|k: int| 0 <= k < start ==> v@[k] == head[k],
            forall|k: int|
                0 <= k < i ==> (#[trigger] v@[start + k])@ == role_content(
                    req.messages@[k].role@,
                    JsonTree::Str(req.messages@[k].content@),
                ),
        decreases req.messages.len() - i,
    {
        let m = &req.messages[i];
        v.push(
            Json::obj().with("role", Json::text(m.role.as_str())).with(
                "content",
                Json::text(m.content.as_str()),
            ),
        );
        i = i + 1;
    }
    proof {
        let expected = plain_messages_tree(req.messages@, req.system);
        assert forall|k: int| 0 <= k < expected.len() implies json_views(v@)[k] == expected[k] by {
            if k >= start {
                assert(v@[start + (k - start)]@ == role_content(
                    req.messages@[k - start].role@,
                    JsonTree::Str(req.messages@[k - start].content@),
                ));
            } else {
                assert(v@[k] == head[k]);
            }
        }
        assert(json_views(v@) =~= expected);
    }
    v
}

/// The strings under `key` of the elements, those without one left out.
pub open spec fn names_under(items: Seq<JsonTree>, key: Seq<char>) -> Seq<Seq<char>>
    decreases items.len(),
{
    if items.len() == 0 {
        Seq::empty()
    } else {
        let head = names_under(items.drop_last(), key);
        match items.last().field(key).as_str() {
            Some(s) => head.push(s),
            None => head,
        }
    }
}

/// The models that a listing names, if it names any.
pub open spec fn listed_models(
    data: JsonTree,
    list: Seq<char>,
    key: Seq<char>,
) -> Option<Seq<Seq<char>>> {
    match data.field(list).as_arr() {
        Some(items) => if names_under(items, key).len() == 0 {
            None
        } else {
            Some(names_under(items, key))
        },
        None => None,
    }
}

pub open spec fn opt_texts(o: Option<Vec<String>>) -> Option<Seq<Seq<char>>> {
    match o {
        Some(v) => Some(texts(v@)),
        None => None,
    }
}

/// The models that a listing names, if it names any.
pub fn parse_models(data: &Json, list: &str, key: &str) -> (r: Option<Vec<String>>)
    ensures
        opt_texts(r) == listed_models(data@, list@, key@),
{
    let items = match data.field(list).as_arr() {
        Some(items) => items,
        None => {
            return None;
        },
    };
    let ghost all = json_views(items@);
    let mut out: Vec<String> = Vec::new();
    let mut i: usize = 0;
    proof {
        assert(all.take(0) =~= Seq::<JsonTree>::empty());
        assert(texts(out@) =~= Seq::<Seq<char>>::empty());
    }
    while i < items.len()
        invariant
            i <= items@.len(),
            all == json_views(items@),
            texts(out@) == names_under(all.take(i as int), key@),
        decreases items.len() - i,
    {
        let ghost before = texts(out@);
        proof {
            assert(all.take(i + 1).drop_last() =~= all.take(i as int));
            assert(all.take(i + 1).last() == items@[i as int]@);
        }
        if let Some(s) = items[i].field(key).as_str() {
            let t = s.to_owned();
            out.push(t);
            proof {
                assert(texts(out@) =~= before.push(s@));
            }
        }
        i = i + 1;
    }
    proof {
        assert(all.take(all.len() as int) =~= all);
    }
    if out.len() == 0 {
        None
    } else {
        Some(out)
    }
}

} // verus!
