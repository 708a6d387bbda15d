//! Plain-value models of an HTTP exchange: the response under construction
//! and the per-request context that middlewares read and write.

use vstd::prelude::*;

use crate::config::RouteConfig;
use crate::kvtable::{pair_views, remove_key, table_first, table_get, upsert, upsert_pair};

verus! {

/// An HTTP response as the gateway assembles it: status code, ordered
/// headers, and body bytes.
pub struct HttpResponse {
    pub status: u16,
    pub headers: Vec<(String, String)>,
    pub body: Vec<u8>,
}

impl HttpResponse {
    /// An empty response with the given status.
    pub fn new(status: u16) -> (r: HttpResponse)
        ensures
            r.status == status,
            r.headers@.len() == 0,
            r.body@.len() == 0,
    {
        HttpResponse { status, headers: Vec::new(), body: Vec::new() }
    }

    /// Sets `name` to `value`, dropping any earlier values for that name.
    pub fn set_header(&mut self, name: &str, value: String)
        ensures
            final(self).status == old(self).status,
            final(self).body == old(self).body,
            pair_views(final(self).headers@) == remove_key(
                pair_views(old(self).headers@),
                name@,
            ).push((name@, value@)),
    {
        upsert_unique(&mut self.headers, name, value);
    }

    /// Appends a header without touching earlier values.
    pub fn append_header(&mut self, name: String, value: String)
        ensures
            final(self).status == old(self).status,
            final(self).body == old(self).body,
            final(self).headers@ == old(self).headers@.push((name, value)),
    {
        self.headers.push((name, value));
    }

    /// The first value for `name`, if any.
    pub fn get_header(&self, name: &str) -> (r: Option<String>)
        ensures
            match r {
                Some(v) => table_first(pair_views(self.headers@), name@) == Some(v@),
                None => table_first(pair_views(self.headers@), name@) is None,
            },
    {
        table_get(&self.headers, name)
    }
}

fn upsert_unique(headers: &mut Vec<(String, String)>, name: &str, value: String)
    ensures
        pair_views(final(headers)@) == remove_key(pair_views(old(headers)@), name@).push(
            (name@, value@),
        ),
{
    crate::kvtable::set_unique_pair(headers, String::from_str(name), value)
}

/// Everything the gateway knows about one in-flight request. Created at
/// ingress and mutated by middlewares in registration order.
pub struct RequestContext {
    pub request_id: String,
    pub method: String,
    pub path: String,
    pub query: Option<String>,
    pub headers: Vec<(String, String)>,
    pub body: Vec<u8>,
    pub client_ip: Option<String>,
    pub started_at_ms: u64,
    pub route: Option<RouteConfig>,
    pub chosen_upstream: Option<String>,
    pub metadata: Vec<(String, String)>,
}

impl RequestContext {
    /// A fresh context with no resolved route, no chosen upstream, and
    /// empty metadata.
    pub fn new(
        request_id: String,
        method: String,
        path: String,
        query: Option<String>,
        headers: Vec<(String, String)>,
        body: Vec<u8>,
        client_ip: Option<String>,
        started_at_ms: u64,
    ) -> (r: RequestContext)
        ensures
            r.request_id == request_id,
            r.method == method,
            r.path == path,
            r.query == query,
            r.headers == headers,
            r.body == body,
            r.client_ip == client_ip,
            r.started_at_ms == started_at_ms,
            r.route is None,
            r.chosen_upstream is None,
            r.metadata@.len() == 0,
    {
        RequestContext {
            request_id,
            method,
            path,
            query,
            headers,
            body,
            client_ip,
            started_at_ms,
            route: None,
            chosen_upstream: None,
            metadata: Vec::new(),
        }
    }

    /// The first value of a request header, if any.
    pub fn header(&self, name: &str) -> (r: Option<String>)
        ensures
            match r {
                Some(v) => table_first(pair_views(self.headers@), name@) == Some(v@),
                None => table_first(pair_views(self.headers@), name@) is None,
            },
    {
        table_get(&self.headers, name)
    }

    /// Stores a metadata value for cross-middleware communication,
    /// replacing any earlier value under the same key.
    pub fn set_metadata(&mut self, key: &str, value: String)
        ensures
            *final(self) == (RequestContext { metadata: final(self).metadata, ..*old(self) }),
            pair_views(final(self).metadata@) == upsert(
                pair_views(old(self).metadata@),
                key@,
                value@,
            ),
    {
        upsert_pair(&mut self.metadata, String::from_str(key), value);
    }

    /// Reads a metadata value.
    pub fn metadata_value(&self, key: &str) -> (r: Option<String>)
        ensures
            match r {
                Some(v) => table_first(pair_views(self.metadata@), key@) == Some(v@),
                None => table_first(pair_views(self.metadata@), key@) is None,
            },
    {
        table_get(&self.metadata, key)
    }
}

} // verus!
