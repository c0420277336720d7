//! The emails that the client keeps.
use crate::id_set::{distinct, id_texts, lemma_distinct_push, lemma_id_texts_push};
use crate::jmap;
use crate::jmap::{EmailKeyword, Id};
use crate::small_set::{
    key_without_an_entry_is_not_marked, last_entry_of_a_key_decides, marked,
    marked_without_repetition, Keyed, SmallSet,
};
use vstd::hash_map::StringHashMap;
use vstd::prelude::*;

verus! {

/// What an email is, apart from how it is held.
pub struct EmailView {
    pub id: Seq<char>,
    pub blob_id: Seq<char>,
    pub keywords: Set<EmailKeyword>,
    pub mailbox_ids: Set<Seq<char>>,
}

/// An object which contains only the properties of a remote Email that the client cares about.
#[derive(Debug)]
pub struct Email {
    pub id: Id,
    pub blob_id: Id,
    pub keywords: SmallSet<EmailKeyword>,
    pub mailbox_ids: SmallSet<Id>,
}

impl View for Email {
    type V = EmailView;

    open spec fn view(&self) -> EmailView {
        EmailView {
            id: self.id@,
            blob_id: self.blob_id@,
            keywords: self.keywords@,
            mailbox_ids: self.mailbox_ids@,
        }
    }
}

/// What the client keeps of an email that the server sent: the keywords and mailboxes that are
/// set on it, without the keywords that it does not know.
pub open spec fn kept(sent: jmap::Email) -> EmailView {
    EmailView {
        id: sent.id@,
        blob_id: sent.blob_id@,
        keywords: marked(sent.keywords@).remove(EmailKeyword::Unknown),
        mailbox_ids: marked(sent.mailbox_ids@),
    }
}

impl Email {
    /// The two sets are well-formed.
    pub open spec fn wf(&self) -> bool {
        self.keywords.wf() && self.mailbox_ids.wf()
    }

    /// Keeps what the client cares about.
    pub fn from_jmap_email(jmap_email: jmap::Email) -> (email: Self)
        ensures
            email.wf(),
            email@ == kept(jmap_email),
            email.id == jmap_email.id,
            email.blob_id == jmap_email.blob_id,
    {
        let mut keywords = SmallSet::from_entries(jmap_email.keywords);
        keywords.remove(&EmailKeyword::Unknown);
        Email {
            id: jmap_email.id,
            blob_id: jmap_email.blob_id,
            keywords,
            mailbox_ids: SmallSet::from_entries(jmap_email.mailbox_ids),
        }
    }
}

/// A map with emails put into it by their ids, one after the other.
pub open spec fn with_emails(
    emails: Map<Seq<char>, EmailView>,
    list: Seq<jmap::Email>,
) -> Map<Seq<char>, EmailView>
    decreases list.len(),
{
    if list.len() == 0 {
        emails
    } else {
        with_emails(emails, list.drop_last()).insert(list.last().id@, kept(list.last()))
    }
}

/// Emails by their ids.
pub struct EmailMap {
    ids: Vec<Id>,
    emails: StringHashMap<Email>,
}

impl View for EmailMap {
    type V = Map<Seq<char>, EmailView>;

    closed spec fn view(&self) -> Map<Seq<char>, EmailView> {
        self.emails@.map_values(|email: Email| email@)
    }
}

impl EmailMap {
    /// Every key is listed once, and every email is well-formed.
    pub closed spec fn wf(&self) -> bool {
        &&& distinct(self.ids@)
        &&& id_texts(self.ids@) == self.emails@.dom()
        &&& forall|k: Seq<char>| #[trigger]
            self.emails@.contains_key(k) ==> self.emails@[k].wf()
    }

    /// An empty map.
    pub fn new() -> (map: Self)
        ensures
            map.wf(),
            map@ == Map::<Seq<char>, EmailView>::empty(),
    {
        let map = EmailMap { ids: Vec::new(), emails: StringHashMap::new() };
        proof {
            assert(id_texts(map.ids@) =~= map.emails@.dom());
            assert(map@ =~= Map::empty());
        }
        map
    }

    /// Puts an email under an id, in place of the one that was there.
    pub fn insert(&mut self, id: Id, email: Email)
        requires
            old(self).wf(),
            email.wf(),
        ensures
            final(self).wf(),
            final(self)@ == old(self)@.insert(id@, email@),
    {
        let ghost before = self.ids@;
        let is_new = !self.emails.contains_key(id.0.as_str());
        self.emails.insert(id.0.clone(), email);
        proof {
            lemma_id_texts_push(before, id);
            assert(self.emails@.dom() =~= old(self).emails@.dom().insert(id@));
        }
        if is_new {
            proof {
                lemma_distinct_push(before, id);
            }
            self.ids.push(id);
        } else {
            proof {
                assert(self.emails@.dom() =~= old(self).emails@.dom());
            }
        }
        proof {
            assert(self@ =~= old(self)@.insert(id@, email@));
        }
    }

    /// Puts every email of a list under its id.
    pub fn extend(&mut self, list: Vec<jmap::Email>)
        requires
            old(self).wf(),
        ensures
            final(self).wf(),
            final(self)@ == with_emails(old(self)@, list@),
    {
        let ghost all = list@;
        for email in it: list
            invariant
                it.seq() == all,
                self.wf(),
                self@ == with_emails(old(self)@, all.take(it.index() as int)),
        {
            let ghost n = it.index() as int;
            proof {
                assert(all.take(n + 1).drop_last() =~= all.take(n));
            }
            self.insert(email.id.clone(), Email::from_jmap_email(email));
        }
        proof {
            assert(all.take(all.len() as int) =~= all);
        }
    }

    /// The email under an id.
    pub fn get(&self, id: &Id) -> (email: Option<&Email>)
        requires
            self.wf(),
        ensures
            match email {
                Some(email) => email.wf() && self@.contains_key(id@) && email@ == self@[id@],
                None => !self@.contains_key(id@),
            },
    {
        self.emails.get(id.0.as_str())
    }

    /// The ids of the map, each once.
    pub fn as_list(&self) -> (ids: &Vec<Id>)
        requires
            self.wf(),
        ensures
            distinct(ids@),
            id_texts(ids@) == self@.dom(),
    {
        proof {
            assert(self@.dom() =~= self.emails@.dom());
        }
        &self.ids
    }
}

/// An email keeps the keywords that are set on it, but for those that the client does not know,
/// and the mailboxes that it is in.
pub proof fn set_keywords_and_mailboxes_are_kept(sent: jmap::Email)
    requires
        forall|i: int, j: int|
            0 <= i < j < sent.keywords@.len() ==> (#[trigger] sent.keywords@[i]).0 != (
            #[trigger] sent.keywords@[j]).0,
        forall|i: int, j: int|
            0 <= i < j < sent.mailbox_ids@.len() ==> (#[trigger] sent.mailbox_ids@[i]).0@ != (
            #[trigger] sent.mailbox_ids@[j]).0@,
    ensures
        forall|keyword: EmailKeyword| #[trigger]
            kept(sent).keywords.contains(keyword) <==> keyword != EmailKeyword::Unknown
                && sent.keywords@.contains((keyword, true)),
        forall|mailbox: Seq<char>| #[trigger]
            kept(sent).mailbox_ids.contains(mailbox) <==> exists|i: int|
                0 <= i < sent.mailbox_ids@.len() && (#[trigger] sent.mailbox_ids@[i]).0@ == mailbox
                    && sent.mailbox_ids@[i].1,
{
    let keywords = sent.keywords@;
    let mailboxes = sent.mailbox_ids@;
    assert forall|i: int, j: int| 0 <= i < j < keywords.len() implies (
    #[trigger] keywords[i]).0.key() != (#[trigger] keywords[j]).0.key() by {}
    assert forall|i: int, j: int| 0 <= i < j < mailboxes.len() implies (
    #[trigger] mailboxes[i]).0.key() != (#[trigger] mailboxes[j]).0.key() by {}
    marked_without_repetition(keywords);
    marked_without_repetition(mailboxes);
    assert forall|keyword: EmailKeyword| #[trigger]
        kept(sent).keywords.contains(keyword) <==> keyword != EmailKeyword::Unknown
            && keywords.contains((keyword, true)) by {
        assert(marked(keywords).contains(keyword) <==> exists|i: int|
            0 <= i < keywords.len() && (#[trigger] keywords[i]).0.key() == keyword
                && keywords[i].1);
        if marked(keywords).contains(keyword) {
            let i = choose|i: int|
                0 <= i < keywords.len() && (#[trigger] keywords[i]).0.key() == keyword
                    && keywords[i].1;
            assert(keywords[i] == (keyword, true));
        }
        if keywords.contains((keyword, true)) {
            let i = choose|i: int| 0 <= i < keywords.len() && keywords[i] == (keyword, true);
            assert(keywords[i].0.key() == keyword);
        }
    }
    assert forall|mailbox: Seq<char>| #[trigger]
        kept(sent).mailbox_ids.contains(mailbox) <==> exists|i: int|
            0 <= i < mailboxes.len() && (#[trigger] mailboxes[i]).0@ == mailbox
                && mailboxes[i].1 by {
        assert(marked(mailboxes).contains(mailbox) <==> exists|i: int|
            0 <= i < mailboxes.len() && (#[trigger] mailboxes[i]).0.key() == mailbox
                && mailboxes[i].1);
        if marked(mailboxes).contains(mailbox) {
            let i = choose|i: int|
                0 <= i < mailboxes.len() && (#[trigger] mailboxes[i]).0.key() == mailbox
                    && mailboxes[i].1;
            assert(mailboxes[i].0@ == mailbox);
        }
        if exists|i: int|
            0 <= i < mailboxes.len() && (#[trigger] mailboxes[i]).0@ == mailbox && mailboxes[i].1 {
            let i = choose|i: int|
                0 <= i < mailboxes.len() && (#[trigger] mailboxes[i]).0@ == mailbox
                    && mailboxes[i].1;
            assert(mailboxes[i].0.key() == mailbox);
        }
    }
}

/// An email is what its parts are.
pub proof fn email_is_its_parts(email: Email)
    ensures
        email@.id == email.id.0@,
        email@.blob_id == email.blob_id.0@,
        email@.keywords == email.keywords@,
        email@.mailbox_ids == email.mailbox_ids@,
{
}

/// Whatever else the server sent of an email, it is kept with the id and the blob id that were
/// sent.
pub proof fn id_and_blob_id_are_kept(sent: jmap::Email)
    ensures
        kept(sent).id == sent.id.0@,
        kept(sent).blob_id == sent.blob_id.0@,
{
}

/// A keyword that the client knows is kept exactly where the last entry for it says `true`; the
/// unknown ones are not.
pub proof fn last_entry_of_a_keyword_decides(sent: jmap::Email, i: int)
    requires
        0 <= i < sent.keywords@.len(),
        forall|j: int|
            i < j < sent.keywords@.len() ==> (#[trigger] sent.keywords@[j]).0
                != sent.keywords@[i].0,
    ensures
        kept(sent).keywords.contains(sent.keywords@[i].0) <==> sent.keywords@[i].1
            && sent.keywords@[i].0 != EmailKeyword::Unknown,
{
    let entries = sent.keywords@;
    assert forall|j: int| i < j < entries.len() implies (#[trigger] entries[j]).0.key()
        != entries[i].0.key() by {
        assert(entries[j].0 != entries[i].0);
    }
    last_entry_of_a_key_decides(entries, i);
    assert(entries[i].0.key() == entries[i].0);
}

/// A mailbox is kept exactly where the last entry for it says `true`.
pub proof fn last_entry_of_a_mailbox_decides(sent: jmap::Email, i: int)
    requires
        0 <= i < sent.mailbox_ids@.len(),
        forall|j: int|
            i < j < sent.mailbox_ids@.len() ==> (#[trigger] sent.mailbox_ids@[j]).0.0@
                != sent.mailbox_ids@[i].0.0@,
    ensures
        kept(sent).mailbox_ids.contains(sent.mailbox_ids@[i].0.0@) <==> sent.mailbox_ids@[i].1,
{
    let entries = sent.mailbox_ids@;
    assert forall|j: int| i < j < entries.len() implies (#[trigger] entries[j]).0.key()
        != entries[i].0.key() by {
        assert(entries[j].0.0@ != entries[i].0.0@);
    }
    last_entry_of_a_key_decides(entries, i);
    assert(entries[i].0.key() == entries[i].0.0@);
}

/// What was not sent is not kept.
pub proof fn nothing_is_made_up(sent: jmap::Email, keyword: EmailKeyword, mailbox: Seq<char>)
    ensures
        (forall|i: int|
            0 <= i < sent.keywords@.len() ==> (#[trigger] sent.keywords@[i]).0 != keyword)
            ==> !kept(sent).keywords.contains(keyword),
        (forall|i: int|
            0 <= i < sent.mailbox_ids@.len() ==> (#[trigger] sent.mailbox_ids@[i]).0.0@ != mailbox)
            ==> !kept(sent).mailbox_ids.contains(mailbox),
{
    let keywords = sent.keywords@;
    let mailboxes = sent.mailbox_ids@;
    if forall|i: int| 0 <= i < keywords.len() ==> (#[trigger] keywords[i]).0 != keyword {
        assert forall|i: int| 0 <= i < keywords.len() implies (#[trigger] keywords[i]).0.key()
            != keyword by {
            assert(keywords[i].0 != keyword);
        }
        key_without_an_entry_is_not_marked(keywords, keyword);
    }
    if forall|i: int| 0 <= i < mailboxes.len() ==> (#[trigger] mailboxes[i]).0.0@ != mailbox {
        assert forall|i: int| 0 <= i < mailboxes.len() implies (#[trigger] mailboxes[i]).0.key()
            != mailbox by {
            assert(mailboxes[i].0.0@ != mailbox);
        }
        key_without_an_entry_is_not_marked(mailboxes, mailbox);
    }
}

/// After a list is put into a map, an id of the list has the last email of the list with that id.
pub proof fn later_emails_replace_earlier_ones(
    emails: Map<Seq<char>, EmailView>,
    list: Seq<jmap::Email>,
    i: int,
)
    requires
        0 <= i < list.len(),
        forall|j: int| i < j < list.len() ==> (#[trigger] list[j]).id.0@ != list[i].id.0@,
    ensures
        with_emails(emails, list).contains_key(list[i].id.0@),
        with_emails(emails, list)[list[i].id.0@] == kept(list[i]),
    decreases list.len(),
{
    if i < list.len() - 1 {
        let init = list.drop_last();
        assert forall|j: int| i < j < init.len() implies (#[trigger] init[j]).id.0@
            != init[i].id.0@ by {
            assert(list[j].id.0@ != list[i].id.0@);
        }
        later_emails_replace_earlier_ones(emails, init, i);
        assert(list[list.len() - 1].id.0@ != list[i].id.0@);
    }
}

/// After a list is put into a map, an id that is not in the list has what it had.
pub proof fn other_emails_stay(
    emails: Map<Seq<char>, EmailView>,
    list: Seq<jmap::Email>,
    k: Seq<char>,
)
    requires
        forall|i: int| 0 <= i < list.len() ==> (#[trigger] list[i]).id.0@ != k,
    ensures
        with_emails(emails, list).contains_key(k) == emails.contains_key(k),
        with_emails(emails, list)[k] == emails[k],
    decreases list.len(),
{
    if list.len() > 0 {
        let init = list.drop_last();
        assert forall|i: int| 0 <= i < init.len() implies (#[trigger] init[i]).id.0@ != k by {
            assert(list[i].id.0@ != k);
        }
        other_emails_stay(emails, init, k);
        assert(list[list.len() - 1].id.0@ != k);
    }
}

} // verus!
