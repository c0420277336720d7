//! Downloading the blobs of emails.
use crate::http::{BlobCall, MAX_BLOB_BYTES};
use crate::jmap::Id;
use crate::remote::Remote;
use crate::template::{
    are_values_cut_well, ascii_template_can_be_expanded, can_expand, expand, four_values,
    is_readable, no_values, uri_expansion,
};
use vstd::prelude::*;
use vstd::utf8::is_ascii_chars;

verus! {

/// The values that a download URL is expanded with.
pub open spec fn blob_values(account_id: Seq<char>, blob_id: Seq<char>) -> Map<
    Seq<char>,
    Seq<char>,
> {
    no_values().insert("accountId"@, account_id).insert("blobId"@, blob_id).insert(
        "type"@,
        "text/plain"@,
    ).insert("name"@, blob_id)
}

fn values_of<'a>(account_id: &'a Id, blob_id: &'a Id) -> (values: [(&'a str, &'a str); 4])
    ensures
        four_values(values) == blob_values(account_id@, blob_id@),
{
    [
        ("accountId", account_id.0.as_str()),
        ("blobId", blob_id.0.as_str()),
        ("type", "text/plain"),
        ("name", blob_id.0.as_str()),
    ]
}

impl Remote {
    /// Whether the download URL can be expanded for a blob.
    pub open spec fn has_blob_url(&self, id: &Id) -> bool {
        &&& is_readable(self.session.download_url@)
        &&& are_values_cut_well(
            self.session.download_url@,
            blob_values(self.session.primary_accounts.mail@, id@),
        )
    }

    /// Tells whether the download URL can be expanded for a blob.
    pub fn can_read_email_blob(&self, id: &Id) -> (answer: bool)
        ensures
            answer == self.has_blob_url(id),
    {
        let values = values_of(&self.session.primary_accounts.mail, id);
        can_expand(&self.session.download_url, &values)
    }

    /// Asks for the blob of an email.
    pub fn read_email_blob(&self, id: &Id) -> (call: BlobCall)
        requires
            self.has_blob_url(id),
        ensures
            call.url@ == uri_expansion(
                self.session.download_url@,
                blob_values(self.session.primary_accounts.mail@, id@),
            ),
            call.authorization@ == self.http_wrapper.authorization@,
            call.limit == MAX_BLOB_BYTES,
            call.limit == 10_000_000,
    {
        let values = values_of(&self.session.primary_accounts.mail, id);
        let uri = expand(&self.session.download_url, values);
        self.http_wrapper.get_reader(&uri)
    }
}

/// The values that the expansion is given do not mix up: each of the variables of a download
/// URL has the value that is meant for it.
pub proof fn blob_values_are_told_apart(account_id: Seq<char>, blob_id: Seq<char>)
    ensures
        blob_values(account_id, blob_id)["accountId"@] == account_id,
        blob_values(account_id, blob_id)["blobId"@] == blob_id,
        blob_values(account_id, blob_id)["type"@] == "text/plain"@,
        blob_values(account_id, blob_id)["name"@] == blob_id,
{
    reveal_strlit("accountId");
    reveal_strlit("blobId");
    reveal_strlit("type");
    reveal_strlit("name");
    assert("type"@[0] != "name"@[0]);
    assert("accountId"@.len() != "blobId"@.len());
}

/// The download URL is expanded with values for these four variables, and for no others.
pub proof fn blob_values_are_four(account_id: Seq<char>, blob_id: Seq<char>, name: Seq<char>)
    ensures
        blob_values(account_id, blob_id).contains_key(name) <==> name == "accountId"@ || name
            == "blobId"@ || name == "type"@ || name == "name"@,
{
}

/// The blob of every email can be asked for where the download URL and the ids are ASCII.
pub proof fn blobs_can_be_read_with_ascii_ids(remote: Remote, id: Id)
    requires
        is_ascii_chars(remote.session.download_url@),
        is_ascii_chars(remote.session.primary_accounts.mail.0@),
        is_ascii_chars(id.0@),
    ensures
        remote.has_blob_url(&id),
{
    reveal_strlit("text/plain");
    let values = blob_values(remote.session.primary_accounts.mail@, id@);
    assert(is_ascii_chars("text/plain"@));
    ascii_template_can_be_expanded(remote.session.download_url@, values);
}

/// The blob of an email cannot be asked for where a list of variables is not ASCII, or a prefix
/// ends within a character; everywhere else it can.
pub proof fn blob_url_is_judged_by_its_template(remote: Remote, id: Id)
    ensures
        remote.has_blob_url(&id) <==> is_readable(remote.session.download_url@)
            && are_values_cut_well(
            remote.session.download_url@,
            blob_values(remote.session.primary_accounts.mail.0@, id.0@),
        ),
{
}

} // verus!
