//! The list of the conversations that the bot can read, which comes page by page.

use crate::channel::{
    listed_channels, lists, readable_conversations_are_listed, ListedChannelView, SlackChannel,
};
use crate::json::{array_member, bool_member, parsed_text, text_member, Json};
use crate::reply::{
    document_or_null, next_cursor, opt_json_ref, read_next_cursor, read_reply, reply_error,
    SlackError,
};
use crate::text::{ascending, opt_text, pairs, sorted_without_repeats, texts};
use vstd::prelude::*;

verus! {

/// The listing of the conversations that the bot can read, as far as it has come.
pub struct ChannelListing {
    channels: Vec<String>,
    cursor: Option<String>,
    pages: Ghost<Seq<Seq<ListedChannelView>>>,
}

/// Whether one of the pages lists `id` as the id of a conversation that the bot can read.
pub open spec fn some_page_lists(pages: Seq<Seq<ListedChannelView>>, id: Seq<char>) -> bool {
    exists|i: int| 0 <= i < pages.len() && lists(#[trigger] pages[i], id)
}

/// The parameters of the request for the page at `cursor`, or for the first page.
pub open spec fn list_query(cursor: Option<Seq<char>>) -> Seq<(Seq<char>, Seq<char>)> {
    let first = seq![
        ("exclude_archived"@, "true"@),
        ("limit"@, "200"@),
        ("types"@, "public_channel,private_channel,mpim,im"@),
    ];
    match cursor {
        Some(next) => first.push(("cursor"@, next)),
        None => first,
    }
}

impl ChannelListing {
    #[verifier::type_invariant]
    spec fn well_formed(self) -> bool {
        forall|id: Seq<char>| #[trigger]
            texts(self.channels@).contains(id) == some_page_lists(self.pages@, id)
    }

    /// The conversations on the pages that have come, page by page.
    pub closed spec fn pages(&self) -> Seq<Seq<ListedChannelView>> {
        self.pages@
    }

    /// Where the next page starts.
    pub closed spec fn cursor(&self) -> Option<Seq<char>> {
        opt_text(self.cursor)
    }

    /// A listing of which no page has come.
    pub fn new() -> (listing: Self)
        ensures
            listing.pages() == Seq::<Seq<ListedChannelView>>::empty(),
            listing.cursor() is None,
    {
        ChannelListing { channels: Vec::new(), cursor: None, pages: Ghost(Seq::empty()) }
    }

    /// The parameters of the request for the next page.
    pub fn query(&self) -> (params: Vec<(String, String)>)
        ensures
            pairs(params@) == list_query(self.cursor()),
    {
        let mut params: Vec<(String, String)> = Vec::new();
        params.push(("exclude_archived".to_owned(), "true".to_owned()));
        params.push(("limit".to_owned(), "200".to_owned()));
        params.push(("types".to_owned(), "public_channel,private_channel,mpim,im".to_owned()));
        match &self.cursor {
            Some(next) => {
                params.push(("cursor".to_owned(), next.clone()));
            },
            None => {},
        }
        assert(pairs(params@) =~= list_query(self.cursor()));
        params
    }

    /// Takes in the page that `document` holds. Returns whether there is another one.
    pub fn add_page(&mut self, document: Option<&serde_json::Value>) -> (more: bool)
        ensures
            final(self).pages() == old(self).pages().push(
                listed_channels(document_or_null(opt_json_ref(document))),
            ),
            final(self).cursor() == next_cursor(document_or_null(opt_json_ref(document))),
            more == (final(self).cursor() is Some),
    {
        proof {
            use_type_invariant(&*self);
        }
        let ghost page = listed_channels(document_or_null(opt_json_ref(document)));
        let mut ids = match document {
            Some(data) => SlackChannel::extract_channel_ids(data),
            None => Vec::new(),
        };
        let cursor = match document {
            Some(data) => read_next_cursor(data),
            None => None,
        };
        let more = cursor.is_some();
        let mut listing = ChannelListing::new();
        std::mem::swap(self, &mut listing);
        let ghost pages = listing.pages@;
        let ghost before = texts(listing.channels@);
        let ghost new = texts(ids@);
        let mut channels = listing.channels;
        channels.append(&mut ids);
        proof {
            let after = texts(channels@);
            let all = pages.push(page);
            assert(after == before + new);
            assert forall|id: Seq<char>| #[trigger] after.contains(id) == some_page_lists(
                all,
                id,
            ) by {
                assert(before.contains(id) == some_page_lists(pages, id));
                assert(new.contains(id) == lists(page, id));
                if before.contains(id) {
                    let k = choose|k: int| 0 <= k < before.len() && before[k] == id;
                    assert(after[k] == id);
                    let p = choose|p: int| 0 <= p < pages.len() && lists(#[trigger] pages[p], id);
                    assert(lists(all[p], id));
                }
                if new.contains(id) {
                    let k = choose|k: int| 0 <= k < new.len() && new[k] == id;
                    assert(after[before.len() + k] == id);
                    assert(lists(all[pages.len() as int], id));
                }
                if after.contains(id) {
                    let k = choose|k: int| 0 <= k < after.len() && after[k] == id;
                    if k < before.len() {
                        assert(before[k] == id);
                    } else {
                        assert(new[k - before.len()] == id);
                    }
                }
                if some_page_lists(all, id) {
                    let p = choose|p: int| 0 <= p < all.len() && lists(#[trigger] all[p], id);
                    if p < pages.len() {
                        assert(lists(pages[p], id));
                    }
                }
            }
        }
        *self = ChannelListing { channels, cursor, pages: Ghost(pages.push(page)) };
        more
    }

    /// Takes in the reply to the request for the next page. Returns whether there is
    /// another one.
    pub fn accept(&mut self, status: u16, status_text: &str, body: &str) -> (r: Result<
        bool,
        SlackError,
    >)
        ensures
            match r {
                Ok(more) => {
                    &&& reply_error(
                        "conversations.list"@,
                        status,
                        status_text@,
                        body@,
                        parsed_text(body@),
                    ) is None
                    &&& final(self).pages() == old(self).pages().push(
                        listed_channels(document_or_null(parsed_text(body@))),
                    )
                    &&& final(self).cursor() == next_cursor(document_or_null(parsed_text(body@)))
                    &&& more == (final(self).cursor() is Some)
                },
                Err(e) => {
                    &&& reply_error(
                        "conversations.list"@,
                        status,
                        status_text@,
                        body@,
                        parsed_text(body@),
                    ) == Some(e@)
                    &&& *final(self) == *old(self)
                },
            },
    {
        match read_reply("conversations.list", status, status_text, body) {
            Ok(document) => match &document {
                Some(data) => Ok(self.add_page(Some(data))),
                None => Ok(self.add_page(None)),
            },
            Err(e) => Err(e),
        }
    }

    /// The ids on the pages that have come, each once, in ascending order.
    pub fn finish(self) -> (ids: Vec<String>)
        ensures
            ascending(texts(ids@)),
            forall|id: Seq<char>| #[trigger]
                texts(ids@).contains(id) == some_page_lists(self.pages(), id),
    {
        proof {
            use_type_invariant(&self);
        }
        let ghost all = texts(self.channels@);
        let ids = sorted_without_repeats(self.channels);
        assert forall|id: Seq<char>| #[trigger] texts(ids@).contains(id) == some_page_lists(
            self.pages(),
            id,
        ) by {
            assert(texts(ids@).to_set().contains(id) == all.to_set().contains(id));
            assert(all.contains(id) == some_page_lists(self.pages@, id));
        }
        ids
    }
}

/// The list holds an id exactly where, on one of its pages, an item under `channels` has it
/// under `id`, is not said to be archived and is not said to be left: no page and no item is
/// left out, and no other member of an item plays a part.
pub proof fn listings_hold_what_their_pages_list(documents: Seq<Json>, id: Seq<char>)
    ensures
        some_page_lists(documents.map_values(|d: Json| listed_channels(d)), id) <==> exists|
            p: int,
            i: int,
        |
            0 <= p < documents.len() && array_member(documents[p], "channels"@) is Some && 0 <= i
                < array_member(documents[p], "channels"@)->0.len() && text_member(
                #[trigger] array_member(documents[p], "channels"@)->0[i],
                "id"@,
            ) == Some(id) && bool_member(
                array_member(documents[p], "channels"@)->0[i],
                "is_archived"@,
            ) != Some(true) && bool_member(
                array_member(documents[p], "channels"@)->0[i],
                "is_member"@,
            ) != Some(false),
{
    let pages = documents.map_values(|d: Json| listed_channels(d));
    if some_page_lists(pages, id) {
        let p = choose|p: int| 0 <= p < pages.len() && lists(#[trigger] pages[p], id);
        assert(pages[p] == listed_channels(documents[p]));
        readable_conversations_are_listed(documents[p], id);
        let items = array_member(documents[p], "channels"@)->0;
        let i = choose|i: int|
            0 <= i < items.len() && text_member(#[trigger] items[i], "id"@) == Some(id)
                && bool_member(items[i], "is_archived"@) != Some(true) && bool_member(
                items[i],
                "is_member"@,
            ) != Some(false);
        assert(text_member(array_member(documents[p], "channels"@)->0[i], "id"@) == Some(id));
    }
    assert forall|p: int, i: int|
        0 <= p < documents.len() && array_member(documents[p], "channels"@) is Some && 0 <= i
            < array_member(documents[p], "channels"@)->0.len() && text_member(
            #[trigger] array_member(documents[p], "channels"@)->0[i],
            "id"@,
        ) == Some(id) && bool_member(
            array_member(documents[p], "channels"@)->0[i],
            "is_archived"@,
        ) != Some(true) && bool_member(
            array_member(documents[p], "channels"@)->0[i],
            "is_member"@,
        ) != Some(false) implies some_page_lists(pages, id) by {
        let items = array_member(documents[p], "channels"@)->0;
        assert(text_member(items[i], "id"@) == Some(id));
        readable_conversations_are_listed(documents[p], id);
        assert(lists(pages[p], id));
    }
}

/// What the requests for pages ask for: conversations of all kinds that are not archived,
/// from the cursor on where there is one.
pub proof fn requests_ask_for_all_kinds(cursor: Seq<char>)
    ensures
        list_query(None) == seq![
            ("exclude_archived"@, "true"@),
            ("limit"@, "200"@),
            ("types"@, "public_channel,private_channel,mpim,im"@),
        ],
        list_query(Some(cursor)) == list_query(None).push(("cursor"@, cursor)),
{
}

} // verus!
