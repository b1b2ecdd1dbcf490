//! Search suggestions of the remote service.

use vstd::prelude::*;
use vstd::string::StringExecFns;
use crate::json::{
    array_member, array_member_of, json_model, json_parse, parse_document, string, string_member,
    string_member_of, JsonModel,
};
use crate::video::FetchError;

verus! {

/// Path and query of a suggestion request, up to the search text.
pub const SUGGESTIONS_PATH: &'static str = "/api/v1/search/suggestions?q=";

/// What introduces the language in a suggestion request.
pub const LANGUAGE_PARAMETER: &'static str = "&hl=";

/// Member of a response that repeats the search text.
pub const QUERY_MEMBER: &'static str = "query";

/// Member of a response that lists the suggestions.
pub const SUGGESTIONS_MEMBER: &'static str = "suggestions";

/// What the service suggests for a search text.
#[derive(Debug, Clone, PartialEq, Eq)]
pub struct Suggestions {
    pub query: String,
    pub suggestions: Vec<String>,
}

/// What a [`Suggestions`] holds, as text.
pub struct SuggestionsView {
    pub query: Seq<char>,
    pub suggestions: Seq<Seq<char>>,
}

/// The texts of a run of strings.
pub open spec fn texts(strings: Seq<String>) -> Seq<Seq<char>> {
    strings.map_values(|s: String| s@)
}

impl View for Suggestions {
    type V = SuggestionsView;

    open spec fn view(&self) -> SuggestionsView {
        SuggestionsView { query: self.query@, suggestions: texts(self.suggestions@) }
    }
}

/// What `html_escape::decode_html_entities` makes of `text`: the text with
/// its character references replaced by the characters they stand for.
pub uninterp spec fn html_entities_decoded(text: Seq<char>) -> Seq<char>;

/// `html_escape::decode_html_entities`. Trusted: what comes back depends
/// on the text alone, and is named by [`html_entities_decoded`].
#[verifier::external_body]
fn decode_entities(text: &str) -> (decoded: String)
    ensures
        decoded@ == html_entities_decoded(text@),
{
    html_escape::decode_html_entities(text).into_owned()
}

/// The address to ask for suggestions for `query` in the language `lang`.
pub open spec fn request_url_of(server: Seq<char>, query: Seq<char>, lang: Seq<char>) -> Seq<char> {
    server + SUGGESTIONS_PATH@ + query + LANGUAGE_PARAMETER@ + lang
}

/// The suggestions that the elements of a response's list stand for, with
/// their character references decoded; `None` where an element is no
/// string.
pub open spec fn decoded_suggestions(items: Seq<JsonModel>) -> Option<Seq<Seq<char>>>
    decreases items.len(),
{
    if items.len() == 0 {
        Some(Seq::empty())
    } else {
        match (decoded_suggestions(items.drop_last()), items.last()) {
            (Some(earlier), JsonModel::Text(text)) => Some(
                earlier.push(html_entities_decoded(text)),
            ),
            _ => None,
        }
    }
}

/// What the response document `document` comes to: the suggestions of an
/// object with a string [`QUERY_MEMBER`] and an array of strings
/// [`SUGGESTIONS_MEMBER`]; any other document is malformed.
pub open spec fn document_suggestions(document: JsonModel) -> Result<
    SuggestionsView,
    FetchError,
> {
    match (
        string_member_of(document, QUERY_MEMBER@),
        array_member_of(document, SUGGESTIONS_MEMBER@),
    ) {
        (Some(query), Some(items)) => match decoded_suggestions(items) {
            Some(suggestions) => Ok(SuggestionsView { query, suggestions }),
            None => Err(FetchError::Malformed),
        },
        _ => Err(FetchError::Malformed),
    }
}

/// What the response text `body` comes to.
pub open spec fn response_suggestions(body: Seq<char>) -> Result<SuggestionsView, FetchError> {
    match json_parse(body) {
        Some(document) => document_suggestions(document),
        None => Err(FetchError::NotJson),
    }
}

/// `parsed` is `expected`, as far as views go.
pub open spec fn is_outcome(
    expected: Result<SuggestionsView, FetchError>,
    parsed: Result<Suggestions, FetchError>,
) -> bool {
    match expected {
        Ok(view) => parsed matches Ok(s) && s@ == view,
        Err(error) => parsed matches Err(e) && e == error,
    }
}

/// `fetched` is what a request for suggestions comes to, given what the
/// service answered.
pub open spec fn is_suggestions_of(
    response: Result<String, FetchError>,
    fetched: Result<Suggestions, FetchError>,
) -> bool {
    match response {
        Ok(body) => is_outcome(response_suggestions(body@), fetched),
        Err(error) => fetched matches Err(e) && e == error,
    }
}

impl Suggestions {
    /// The address to ask for suggestions for `query` in the language
    /// `lang`.
    pub fn request_url(query: &str, server: &str, lang: &str) -> (url: String)
        ensures
            url@ == request_url_of(server@, query@, lang@),
    {
        let mut url = server.to_owned();
        url.append(SUGGESTIONS_PATH);
        url.append(query);
        url.append(LANGUAGE_PARAMETER);
        url.append(lang);
        url
    }

    /// The suggestions in a response document.
    pub fn from_document(document: &serde_json::Value) -> (parsed: Result<
        Suggestions,
        FetchError,
    >)
        ensures
            is_outcome(document_suggestions(json_model(*document)), parsed),
    {
        let query = match string_member(document, QUERY_MEMBER) {
            Some(query) => query,
            None => {
                return Err(FetchError::Malformed);
            },
        };
        let items = match array_member(document, SUGGESTIONS_MEMBER) {
            Some(items) => items,
            None => {
                return Err(FetchError::Malformed);
            },
        };
        let ghost models = array_member_of(json_model(*document), SUGGESTIONS_MEMBER@)->Some_0;
        let mut suggestions: Vec<String> = Vec::new();
        let mut i: usize = 0;
        assert(models.take(0) =~= Seq::<JsonModel>::empty());
        assert(texts(suggestions@) =~= Seq::<Seq<char>>::empty());
        while i < items.len()
            invariant
                i <= items@.len(),
                models.len() == items@.len(),
                string_member_of(json_model(*document), QUERY_MEMBER@) == Some(query@),
                array_member_of(json_model(*document), SUGGESTIONS_MEMBER@) == Some(models),
                forall|k: int|
                    0 <= k < items@.len() ==> json_model(#[trigger] items@[k]) == models[k],
                decoded_suggestions(models.take(i as int)) == Some(texts(suggestions@)),
            decreases items@.len() - i,
        {
            assert(models.take(i + 1).drop_last() =~= models.take(i as int));
            assert(models.take(i + 1).last() == json_model(items@[i as int]));
            match string(&items[i]) {
                Some(text) => {
                    let ghost earlier = suggestions@;
                    let decoded = decode_entities(text);
                    suggestions.push(decoded);
                    assert(texts(suggestions@) =~= texts(earlier).push(decoded@));
                },
                None => {
                    proof {
                        lemma_undecodable_beginning(models, i + 1);
                    }
                    return Err(FetchError::Malformed);
                },
            }
            i += 1;
        }
        assert(models.take(models.len() as int) =~= models);
        Ok(Suggestions { query: query.to_owned(), suggestions })
    }

    /// The suggestions in the text of a response.
    pub fn from_response(body: &str) -> (parsed: Result<Suggestions, FetchError>)
        ensures
            is_outcome(response_suggestions(body@), parsed),
    {
        match parse_document(body) {
            Ok(document) => Suggestions::from_document(&document),
            Err(_) => Err(FetchError::NotJson),
        }
    }

    /// Asks the service at `server` for suggestions for `query` in the
    /// language `lang`: `fetch` is handed the address and returns the text
    /// of the response.
    pub fn fetch_suggestions<F: Fn(String) -> Result<String, FetchError>>(
        query: &str,
        server: &str,
        lang: &str,
        fetch: &F,
    ) -> (fetched: Result<Suggestions, FetchError>)
        requires
            forall|url: String| call_requires(fetch, (url,)),
        ensures
            exists|url: String, response: Result<String, FetchError>|
                url@ == request_url_of(server@, query@, lang@) && #[trigger] call_ensures(
                    fetch,
                    (url,),
                    response,
                ) && is_suggestions_of(response, fetched),
    {
        let url = Suggestions::request_url(query, server, lang);
        let ghost asked = url;
        let response = fetch(url);
        assert(call_ensures(fetch, (asked,), response));
        match response {
            Ok(body) => {
                let fetched = Suggestions::from_response(body.as_str());
                assert(is_suggestions_of(response, fetched));
                fetched
            },
            Err(error) => {
                let fetched = Err(error);
                assert(is_suggestions_of(response, fetched));
                fetched
            },
        }
    }
}

/// A list of which a beginning already holds something that is no string
/// has no suggestions.
proof fn lemma_undecodable_beginning(items: Seq<JsonModel>, k: int)
    requires
        0 <= k <= items.len(),
        decoded_suggestions(items.take(k)) is None,
    ensures
        decoded_suggestions(items) is None,
    decreases items.len() - k,
{
    if k < items.len() {
        assert(items.take(k + 1).drop_last() =~= items.take(k));
        lemma_undecodable_beginning(items, k + 1);
    } else {
        assert(items.take(k) =~= items);
    }
}

} // verus!
