//! The records that every message leaves behind: the user, the message, its edits.

use crate::clock::Timestamp;
use crate::users::{provisioned, UserTable, UserView};
use vstd::prelude::*;

verus! {

/// A message as it is recorded.
#[derive(Clone, Debug, PartialEq, Eq)]
pub struct Message {
    pub id: u64,
    pub author: u64,
    pub content: String,
    pub channel: u64,
    pub date: Option<Timestamp>,
}

/// What a recorded message holds.
pub struct MessageView {
    pub id: u64,
    pub author: u64,
    pub content: Seq<char>,
    pub channel: u64,
    pub date: Option<Timestamp>,
}

impl View for Message {
    type V = MessageView;

    open spec fn view(&self) -> MessageView {
        MessageView {
            id: self.id,
            author: self.author,
            content: self.content@,
            channel: self.channel,
            date: self.date,
        }
    }
}

/// An edit of a message that was recorded before.
#[derive(Clone, Debug, PartialEq, Eq)]
pub struct NewMessageEdit {
    pub id: Option<i32>,
    pub parrent_message_id: u64,
    pub author: u64,
    pub channel: u64,
    pub content: String,
    pub date: Option<Timestamp>,
}

/// What a recorded edit holds.
pub struct MessageEditView {
    pub id: Option<i32>,
    pub parrent_message_id: u64,
    pub author: u64,
    pub channel: u64,
    pub content: Seq<char>,
    pub date: Option<Timestamp>,
}

impl View for NewMessageEdit {
    type V = MessageEditView;

    open spec fn view(&self) -> MessageEditView {
        MessageEditView {
            id: self.id,
            parrent_message_id: self.parrent_message_id,
            author: self.author,
            channel: self.channel,
            content: self.content@,
            date: self.date,
        }
    }
}

/// The edit that records the new state `m` of a message.
pub open spec fn edit_of(m: MessageView) -> MessageEditView {
    MessageEditView {
        id: None,
        parrent_message_id: m.id,
        author: m.author,
        channel: m.channel,
        content: m.content,
        date: m.date,
    }
}

/// The record of the new state of an edited message. The notice of an edit may lack
/// the author, the content or the instant: an unknown author is recorded as 0, an
/// unknown content as the empty text, and an unknown instant as `now`.
pub fn edited_message(
    id: u64,
    author: Option<u64>,
    content: Option<String>,
    channel: u64,
    timestamp: Option<Timestamp>,
    now: Timestamp,
) -> (m: Message)
    ensures
        m@ == (MessageView {
            id,
            author: match author {
                Some(a) => a,
                None => 0,
            },
            content: match content {
                Some(c) => c@,
                None => Seq::empty(),
            },
            channel,
            date: Some(
                match timestamp {
                    Some(t) => t,
                    None => now,
                },
            ),
        }),
{
    let author_id: u64 = match author {
        Some(a) => a,
        None => 0,
    };
    let time: Timestamp = match timestamp {
        Some(t) => t,
        None => now,
    };
    let text: String = match content {
        Some(c) => c,
        None => String::new(),
    };
    Message { id, author: author_id, content: text, channel, date: Some(time) }
}

/// The tables that messages are recorded in.
pub struct Database {
    pub users: UserTable,
    pub messages: Vec<Message>,
    pub messages_edits: Vec<NewMessageEdit>,
}

impl Database {
    /// The recorded messages.
    pub open spec fn message_views(&self) -> Seq<MessageView> {
        self.messages@.map_values(|m: Message| m@)
    }

    /// The recorded edits.
    pub open spec fn edit_views(&self) -> Seq<MessageEditView> {
        self.messages_edits@.map_values(|e: NewMessageEdit| e@)
    }

    /// Empty tables.
    pub fn new() -> (db: Database)
        ensures
            db.users@ == Seq::<UserView>::empty(),
            db.message_views() == Seq::<MessageView>::empty(),
            db.edit_views() == Seq::<MessageEditView>::empty(),
    {
        let db = Database {
            users: UserTable::new(),
            messages: Vec::new(),
            messages_edits: Vec::new(),
        };
        assert(db.message_views() =~= Seq::<MessageView>::empty());
        assert(db.edit_views() =~= Seq::<MessageEditView>::empty());
        db
    }
}

/// Records a message. An edit is recorded as an edit of the message it changes, and
/// nothing else happens. A new message is recorded as it is, after its author has been
/// given a record with the lowest role on first contact.
pub fn database_update(db: &mut Database, message: Message, is_edit: bool)
    ensures
        is_edit ==> {
            &&& final(db).edit_views() == old(db).edit_views().push(edit_of(message@))
            &&& final(db).message_views() == old(db).message_views()
            &&& final(db).users@ == old(db).users@
        },
        !is_edit ==> {
            &&& final(db).edit_views() == old(db).edit_views()
            &&& final(db).message_views() == old(db).message_views().push(message@)
            &&& final(db).users@ == provisioned(old(db).users@, message.author)
        },
{
    let ghost m = message@;
    let ghost edits = db.edit_views();
    let ghost messages = db.message_views();
    if is_edit {
        db.messages_edits.push(
            NewMessageEdit {
                id: None,
                parrent_message_id: message.id,
                author: message.author,
                channel: message.channel,
                content: message.content,
                date: message.date,
            },
        );
        assert(db.edit_views() =~= edits.push(edit_of(m)));
    } else {
        db.users.ensure_known(message.author);
        db.messages.push(message);
        assert(db.message_views() =~= messages.push(m));
    }
}

} // verus!
