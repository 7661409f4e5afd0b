//! The text of the queries that the record store is asked.

use vstd::prelude::*;
use vstd::string::StringExecFns;

verus! {

/// The ids, each in double quotes, with commas between them.
pub open spec fn quoted_list(ids: Seq<Seq<char>>) -> Seq<char>
    decreases ids.len(),
{
    if ids.len() == 0 {
        Seq::empty()
    } else if ids.len() == 1 {
        "\""@ + ids[0] + "\""@
    } else {
        quoted_list(ids.drop_last()) + ","@ + "\""@ + ids.last() + "\""@
    }
}

/// The query for all documents of a user.
pub open spec fn owner_query_text(user_id: Seq<char>) -> Seq<char> {
    "SELECT * FROM c WHERE c.user_id = \""@ + user_id + "\""@
}

/// The query for the documents of a user whose `field` is one of `values`.
pub open spec fn listed_query_text(
    user_id: Seq<char>,
    field: Seq<char>,
    values: Seq<Seq<char>>,
) -> Seq<char> {
    owner_query_text(user_id) + " AND c."@ + field + " IN ("@ + quoted_list(values) + ")"@
}

/// The query for the rating records of a user on the given tracks.
pub open spec fn tracks_query_text(user_id: Seq<char>, track_ids: Seq<Seq<char>>) -> Seq<char> {
    listed_query_text(user_id, "track_id"@, track_ids)
}

/// The query for the rating records of a user with the given ids.
pub open spec fn records_query_text(user_id: Seq<char>, ids: Seq<Seq<char>>) -> Seq<char> {
    listed_query_text(user_id, "id"@, ids)
}

/// The query for the user who logged in with `auth`.
pub open spec fn auth_query_text(auth: Seq<char>) -> Seq<char> {
    "SELECT * FROM c WHERE c.auth = \""@ + auth + "\""@
}

/// The query for all documents of a user.
pub fn owner_query(user_id: &str) -> (query: String)
    ensures
        query@ == owner_query_text(user_id@),
{
    "SELECT * FROM c WHERE c.user_id = \"".to_owned().concat(user_id).concat("\"")
}

/// The query for the user who logged in with `auth`.
pub fn auth_query(auth: &str) -> (query: String)
    ensures
        query@ == auth_query_text(auth@),
{
    "SELECT * FROM c WHERE c.auth = \"".to_owned().concat(auth).concat("\"")
}

/// The query for the documents of a user whose `field` is one of `values`.
fn listed_query(user_id: &str, field: &str, values: &Vec<String>) -> (query: String)
    ensures
        query@ == listed_query_text(user_id@, field@, values.deep_view()),
{
    let mut list = String::new();
    let mut i: usize = 0;
    while i < values.len()
        invariant
            i <= values.len(),
            list@ == quoted_list(values.deep_view().take(i as int)),
        decreases values.len() - i,
    {
        let ghost next = values.deep_view().take(i + 1);
        assert(next.drop_last() =~= values.deep_view().take(i as int));
        if i > 0 {
            list.append(",");
        }
        list.append("\"");
        list.append(values[i].as_str());
        list.append("\"");
        i += 1;
    }
    assert(values.deep_view().take(i as int) =~= values.deep_view());
    owner_query(user_id).concat(" AND c.").concat(field).concat(" IN (").concat(list.as_str()).concat(
        ")",
    )
}

/// The query for the rating records of a user on the given tracks.
pub fn tracks_query(user_id: &str, track_ids: &Vec<String>) -> (query: String)
    ensures
        query@ == tracks_query_text(user_id@, track_ids.deep_view()),
{
    listed_query(user_id, "track_id", track_ids)
}

/// The query for the rating records of a user with the given ids.
pub fn records_query(user_id: &str, ids: &Vec<String>) -> (query: String)
    ensures
        query@ == records_query_text(user_id@, ids.deep_view()),
{
    listed_query(user_id, "id", ids)
}

} // verus!
