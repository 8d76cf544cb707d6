//! Report queries of the request store: which fields of stored records
//! the list and detail views may return.
use vstd::prelude::*;
use vstd::string::StringExecFns;

verus! {

/// The usage object of a listed request: only these fields, whatever else a
/// stored record holds.
pub open spec fn list_usage_spec(data: Seq<char>) -> Seq<char> {
    "jsonb_build_object('input_tokens',"@ + data + "->'input_tokens',
        'output_tokens',"@ + data + "->'output_tokens','cached_input_tokens',"@ + data + "->'cached_input_tokens',
        'complete',"@ + data + "->'complete','service_tier',"@ + data + "->'service_tier',
        'search_calls',"@ + data + "->'search_calls')"@
}

/// The whitelisted usage fields of the JSON expression `data`.
pub fn list_usage(data: &str) -> (r: String)
    ensures
        r@ == list_usage_spec(data@),
{
    let mut s = String::from_str("jsonb_build_object('input_tokens',");
    s.append(data);
    s.append("->'input_tokens',
        'output_tokens',");
    s.append(data);
    s.append("->'output_tokens','cached_input_tokens',");
    s.append(data);
    s.append("->'cached_input_tokens',
        'complete',");
    s.append(data);
    s.append("->'complete','service_tier',");
    s.append(data);
    s.append("->'service_tier',
        'search_calls',");
    s.append(data);
    s.append("->'search_calls')");
    s
}

pub open spec fn report_record_spec(summary: bool) -> Seq<char> {
    if summary {
        "jsonb_build_object(
            'id',requests.id,'key_id',requests.key_id,'account_id',requests.account_id,
            'client_session_id',requests.client_session_id,'model',requests.model,
            'state',requests.state,'created_at',requests.created_at,
            'kind',requests.data->'kind','stateless',requests.data->'stateless',
            'stream',requests.data->'stream','client_origin',requests.data->'client_origin',
            'provider',requests.data->'provider','upstream_model',requests.data->'upstream_model',
            'binding_id',requests.data->'binding_id','binding_generation',requests.data->'binding_generation',
            'reasoning_effort',requests.data->'reasoning_effort','requested_tier',requests.data->'requested_tier',
            'queue_ms',requests.data->'queue_ms','first_content_ms',requests.data->'first_content_ms',
            'total_ms',requests.data->'total_ms','usage',"@ + list_usage_spec("requests.data->'usage'"@) + ",
            'valuation',requests.data->'valuation','search_price',requests.data->'search_price')"@
    } else {
        "requests.data"@
    }
}

pub open spec fn report_previous_spec(summary: bool) -> Seq<char> {
    if summary {
        list_usage_spec("p.data->'usage'"@)
    } else {
        "p.data->'usage'"@
    }
}

pub open spec fn report_price_spec(summary: bool) -> Seq<char> {
    if summary {
        "jsonb_build_object('standard',data->'standard','fast_multiplier',data->'fast_multiplier')"@
    } else {
        "data"@
    }
}

/// The request report: each request with its account name, the price it was
/// valued at, and the previous request of the same thread that could have
/// warmed its cache. A summary returns whitelisted fields of a page; a detail
/// returns whole records.
pub open spec fn report_query_spec(summary: bool) -> Seq<char> {
    "SELECT "@ + report_record_spec(summary) + " || jsonb_build_object(
        'account_name', (SELECT data->>'name' FROM accounts WHERE accounts.id=requests.account_id),
        'price', (SELECT "@ + report_price_spec(summary)
        + " FROM prices WHERE version=(requests.data->'valuation'->>'price_version')::bigint),
        'cache_previous', (SELECT jsonb_build_object(
            'id',p.id,'created_at',p.created_at,'finished_at',p.finished_at,
            'account_id',p.account_id,'binding_id',p.data->'binding_id',
            'binding_generation',p.data->'binding_generation',
            'provider',p.data->'provider','model',p.model,'upstream_model',p.data->'upstream_model',
            'usage',"@ + report_previous_spec(summary) + ") FROM requests p
          WHERE COALESCE(requests.data->>'kind','responses')='responses'
            AND requests.client_session_id<>''
            AND p.key_id=requests.key_id AND p.client_session_id=requests.client_session_id
            AND p.data->>'client_thread_id'=requests.data->>'client_thread_id'
            AND COALESCE(p.data->>'kind','responses')='responses'
            AND (p.data->>'upstream_attempts')::int>0
            AND (p.created_at,p.id)<(requests.created_at,requests.id)
          ORDER BY p.created_at DESC,p.id DESC LIMIT 1)
        ) AS data FROM "@ + (if summary {
        "page"@
    } else {
        "requests"@
    }) + " requests"@
}

pub fn request_report_query(summary: bool) -> (r: String)
    ensures
        r@ == report_query_spec(summary),
{
    let record = if summary {
        let usage = list_usage("requests.data->'usage'");
        let mut s = String::from_str("jsonb_build_object(
            'id',requests.id,'key_id',requests.key_id,'account_id',requests.account_id,
            'client_session_id',requests.client_session_id,'model',requests.model,
            'state',requests.state,'created_at',requests.created_at,
            'kind',requests.data->'kind','stateless',requests.data->'stateless',
            'stream',requests.data->'stream','client_origin',requests.data->'client_origin',
            'provider',requests.data->'provider','upstream_model',requests.data->'upstream_model',
            'binding_id',requests.data->'binding_id','binding_generation',requests.data->'binding_generation',
            'reasoning_effort',requests.data->'reasoning_effort','requested_tier',requests.data->'requested_tier',
            'queue_ms',requests.data->'queue_ms','first_content_ms',requests.data->'first_content_ms',
            'total_ms',requests.data->'total_ms','usage',");
        s.append(usage.as_str());
        s.append(",
            'valuation',requests.data->'valuation','search_price',requests.data->'search_price')");
        s
    } else {
        String::from_str("requests.data")
    };
    let previous = if summary {
        list_usage("p.data->'usage'")
    } else {
        String::from_str("p.data->'usage'")
    };
    let price = if summary {
        "jsonb_build_object('standard',data->'standard','fast_multiplier',data->'fast_multiplier')"
    } else {
        "data"
    };
    let mut s = String::from_str("SELECT ");
    s.append(record.as_str());
    s.append(" || jsonb_build_object(
        'account_name', (SELECT data->>'name' FROM accounts WHERE accounts.id=requests.account_id),
        'price', (SELECT ");
    s.append(price);
    s.append(" FROM prices WHERE version=(requests.data->'valuation'->>'price_version')::bigint),
        'cache_previous', (SELECT jsonb_build_object(
            'id',p.id,'created_at',p.created_at,'finished_at',p.finished_at,
            'account_id',p.account_id,'binding_id',p.data->'binding_id',
            'binding_generation',p.data->'binding_generation',
            'provider',p.data->'provider','model',p.model,'upstream_model',p.data->'upstream_model',
            'usage',");
    s.append(previous.as_str());
    s.append(") FROM requests p
          WHERE COALESCE(requests.data->>'kind','responses')='responses'
            AND requests.client_session_id<>''
            AND p.key_id=requests.key_id AND p.client_session_id=requests.client_session_id
            AND p.data->>'client_thread_id'=requests.data->>'client_thread_id'
            AND COALESCE(p.data->>'kind','responses')='responses'
            AND (p.data->>'upstream_attempts')::int>0
            AND (p.created_at,p.id)<(requests.created_at,requests.id)
          ORDER BY p.created_at DESC,p.id DESC LIMIT 1)
        ) AS data FROM ");
    s.append(if summary {
        "page"
    } else {
        "requests"
    });
    s.append(" requests");
    s
}

} // verus!
