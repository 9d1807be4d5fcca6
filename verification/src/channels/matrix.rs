//! Matrix: syncing with a homeserver and sending to rooms.
use vstd::prelude::*;
use vstd::utf8::encode_utf8;
use crate::channels::base::{
    allows, draft_views, messages_of_drafts, opt_draft, BaseChannel, Draft, DraftView,
};
use crate::channels::config::{
    get_number_or, get_setting, get_setting_or, number_or, setting, setting_or,
};
use crate::crypto::{percent_text, url_encode};
use crate::json::{json_map, Json, JsonTree};
use crate::model::channel::{fresh_uuid, put_member, InboundMessage};
use crate::text::{
    cat2, cat4, is_text, nat_text, or_empty, same_str, says, str_trim, str_trim_end_char,
    text_or_empty, texts, trim, trim_end_char, u64_text,
};

verus! {

/// What a sync brings.
#[derive(Debug)]
pub struct SyncResponse {
    pub next_batch: String,
    pub rooms: Option<SyncRooms>,
}

#[derive(Debug)]
pub struct SyncRooms {
    /// The joined rooms by identifier, in the order in which they are handled.
    pub join: Option<Vec<(String, JoinedRoom)>>,
}

#[derive(Debug)]
pub struct JoinedRoom {
    pub timeline: Option<Timeline>,
}

#[derive(Debug)]
pub struct Timeline {
    pub events: Option<Vec<RoomEvent>>,
}

#[derive(Debug)]
pub struct RoomEvent {
    pub event_id: Option<String>,
    pub sender: Option<String>,
    pub event_type: Option<String>,
    pub content: Option<Json>,
    pub origin_server_ts: Option<u64>,
}

/// What else is known of an event.
pub open spec fn event_metadata(room: Seq<char>, event: RoomEvent) -> Map<Seq<char>, JsonTree> {
    let ids = match event.event_id {
        Some(id) => Map::empty().insert("event_id"@, JsonTree::Str(id@)),
        None => Map::empty(),
    };
    let located = ids.insert("room_id"@, JsonTree::Str(room));
    match event.origin_server_ts {
        Some(ts) => located.insert("origin_server_ts"@, JsonTree::UInt(ts)),
        None => located,
    }
}

/// The draft of an event: that of a text message that the bot did not send
/// itself and that is not blank.
pub open spec fn event_draft(
    bot: Seq<char>,
    room: Seq<char>,
    event: RoomEvent,
) -> Option<DraftView> {
    let sender = text_or_empty(event.sender);
    if !says(event.event_type, "m.room.message"@) || (bot.len() > 0 && sender == bot) {
        None
    } else {
        match event.content {
            Some(c) => if c@.field("msgtype"@).as_str() == Some("m.text"@) {
                match c@.field("body"@).as_str() {
                    Some(t) => if trim(t).len() > 0 {
                        Some(
                            DraftView {
                                sender_id: sender,
                                sender_name: sender,
                                session_id: room,
                                content: trim(t),
                                metadata: event_metadata(room, event),
                            },
                        )
                    } else {
                        None
                    },
                    None => None,
                }
            } else {
                None
            },
            None => None,
        }
    }
}

/// Whether the allowlist admits the sender or the room.
pub open spec fn room_or_sender_allowed(
    list: Seq<Seq<char>>,
    sender: Seq<char>,
    room: Seq<char>,
) -> bool {
    allows(list, sender) || allows(list, room)
}

/// The draft of an event, where the sender or the room is allowed.
pub open spec fn admitted_event(
    list: Seq<Seq<char>>,
    bot: Seq<char>,
    room: Seq<char>,
    event: RoomEvent,
) -> Seq<DraftView> {
    match event_draft(bot, room, event) {
        Some(d) => if room_or_sender_allowed(list, d.sender_id, room) {
            seq![d]
        } else {
            Seq::empty()
        },
        None => Seq::empty(),
    }
}

pub open spec fn admitted_events(
    list: Seq<Seq<char>>,
    bot: Seq<char>,
    room: Seq<char>,
    events: Seq<RoomEvent>,
) -> Seq<DraftView>
    decreases events.len(),
{
    if events.len() == 0 {
        Seq::empty()
    } else {
        admitted_events(list, bot, room, events.drop_last()) + admitted_event(
            list,
            bot,
            room,
            events.last(),
        )
    }
}

pub open spec fn room_events(room: JoinedRoom) -> Seq<RoomEvent> {
    match room.timeline {
        Some(t) => match t.events {
            Some(e) => e@,
            None => Seq::empty(),
        },
        None => Seq::empty(),
    }
}

pub open spec fn admitted_rooms(
    list: Seq<Seq<char>>,
    bot: Seq<char>,
    rooms: Seq<(String, JoinedRoom)>,
) -> Seq<DraftView>
    decreases rooms.len(),
{
    if rooms.len() == 0 {
        Seq::empty()
    } else {
        admitted_rooms(list, bot, rooms.drop_last()) + admitted_events(
            list,
            bot,
            rooms.last().0@,
            room_events(rooms.last().1),
        )
    }
}

/// The drafts that a sync leads to.
pub open spec fn admitted_sync(
    list: Seq<Seq<char>>,
    bot: Seq<char>,
    sync: SyncResponse,
) -> Seq<DraftView> {
    match sync.rooms {
        Some(r) => match r.join {
            Some(j) => admitted_rooms(list, bot, j@),
            None => Seq::empty(),
        },
        None => Seq::empty(),
    }
}

/// A Matrix account and its homeserver.
pub struct MatrixChannel {
    pub base: BaseChannel,
    pub homeserver: String,
    pub access_token: String,
    pub user_id: String,
    pub device_id: String,
    pub sync_timeout_ms: u64,
}

proof fn lemma_draft_views_add(a: Seq<Draft>, b: Seq<Draft>)
    ensures
        draft_views(a + b) == draft_views(a) + draft_views(b),
{
    assert(draft_views(a + b) =~= draft_views(a) + draft_views(b));
}

impl MatrixChannel {
    /// A channel from its settings.
    pub fn from_extra(
        token: Option<String>,
        allow_from: Vec<String>,
        extra: &Vec<(String, String)>,
    ) -> (r: Result<MatrixChannel, String>)
        ensures
            match r {
                Ok(c) => {
                    &&& token == Some(c.access_token)
                    &&& setting(extra@, "homeserver"@) matches Some(h) && c.homeserver@
                        == trim_end_char(h, '/')
                    &&& c.user_id@ == setting_or(extra@, "user_id"@, ""@)
                    &&& c.device_id@ == setting_or(extra@, "device_id"@, "ADACLAW"@)
                    &&& c.sync_timeout_ms == number_or(
                        extra@,
                        "sync_timeout_ms"@,
                        u64::MAX as nat,
                        30000,
                    )
                    &&& c.base.name@ == "matrix"@
                    &&& c.base.allow_from == allow_from
                    &&& c.base.allow_from_groups@.len() == 0
                    &&& !c.base.running
                },
                Err(e) => if token is None {
                    e@ == "channels.matrix.token (access_token) is required"@
                } else {
                    setting(extra@, "homeserver"@) is None && e@
                        == "channels.matrix.extra.homeserver is required"@
                },
            },
    {
        let access_token = match token {
            Some(t) => t,
            None => {
                return Err("channels.matrix.token (access_token) is required".to_owned());
            },
        };
        let homeserver = match get_setting(extra, "homeserver") {
            Some(h) => str_trim_end_char(h.as_str(), '/'),
            None => {
                return Err("channels.matrix.extra.homeserver is required".to_owned());
            },
        };
        let user_id = get_setting_or(extra, "user_id", "");
        let device_id = get_setting_or(extra, "device_id", "ADACLAW");
        let sync_timeout_ms: u64 = get_number_or(extra, "sync_timeout_ms", u64::MAX, 30000);
        Ok(
            MatrixChannel {
                base: BaseChannel::new("matrix").with_allow_from(allow_from),
                homeserver,
                access_token,
                user_id,
                device_id,
                sync_timeout_ms,
            },
        )
    }

    /// How long a request may take: ten seconds longer than a sync.
    pub fn request_timeout_ms(&self) -> (r: u64)
        requires
            self.sync_timeout_ms + 10000 <= u64::MAX,
        ensures
            r == self.sync_timeout_ms + 10000,
    {
        self.sync_timeout_ms + 10000
    }

    /// The address of the next sync.
    pub fn sync_once(&self, since: Option<&str>) -> (r: String)
        ensures
            r@ == self.homeserver@ + "/_matrix/client/v3/sync?timeout="@ + nat_text(
                self.sync_timeout_ms as nat,
            ) + match since {
                Some(batch) => "&since="@ + percent_text(encode_utf8(batch@)),
                None => Seq::empty(),
            },
    {
        let ms = u64_text(self.sync_timeout_ms);
        let mut url = cat2(self.homeserver.as_str(), "/_matrix/client/v3/sync?timeout=");
        url.append(ms.as_str());
        let ghost head = url@;
        match since {
            Some(batch) => {
                let b = url_encode(batch);
                let tail = cat2("&since=", b.as_str());
                url.append(tail.as_str());
            },
            None => {
                proof {
                    assert(head + Seq::<char>::empty() =~= head);
                }
            },
        }
        url
    }

    /// The address and the body of the request that sends a text to a room
    /// under a transaction identifier.
    pub fn message_request(&self, room_id: &str, text: &str, transaction: &str) -> (r: (
        String,
        Json,
    ))
        ensures
            r.0@ == self.homeserver@ + "/_matrix/client/v3/rooms/"@ + percent_text(
                encode_utf8(room_id@),
            ) + "/send/m.room.message/"@ + transaction@,
            r.1@ == JsonTree::Obj(
                Map::empty().insert("msgtype"@, JsonTree::Str("m.text"@)).insert(
                    "body"@,
                    JsonTree::Str(text@),
                ),
            ),
    {
        let room = url_encode(room_id);
        let mut url = cat4(
            self.homeserver.as_str(),
            "/_matrix/client/v3/rooms/",
            room.as_str(),
            "/send/m.room.message/",
        );
        url.append(transaction);
        let body = Json::obj().with("msgtype", Json::text("m.text")).with("body", Json::text(text));
        (url, body)
    }

    /// The address and the body of the request that sends a text to a room
    /// under a fresh transaction identifier.
    pub fn send_message(&self, room_id: &str, text: &str) -> (r: (String, Json))
        ensures
            exists|transaction: Seq<char>|
                transaction.len() == 36 && r.0@ == #[trigger] (self.homeserver@
                    + "/_matrix/client/v3/rooms/"@ + percent_text(encode_utf8(room_id@))
                    + "/send/m.room.message/"@ + transaction),
            r.1@ == JsonTree::Obj(
                Map::empty().insert("msgtype"@, JsonTree::Str("m.text"@)).insert(
                    "body"@,
                    JsonTree::Str(text@),
                ),
            ),
    {
        let transaction = fresh_uuid();
        self.message_request(room_id, text, transaction.as_str())
    }

    /// The draft of an event, whoever sent it.
    pub fn draft_of_event(&self, room_id: &str, event: &RoomEvent) -> (r: Option<Draft>)
        ensures
            opt_draft(r) == event_draft(self.user_id@, room_id@, *event),
    {
        if !is_text(&event.event_type, "m.room.message") {
            return None;
        }
        let sender = or_empty(&event.sender);
        if !self.user_id.as_str().is_empty() && same_str(sender.as_str(), self.user_id.as_str()) {
            return None;
        }
        let content = match &event.content {
            Some(c) => c,
            None => {
                return None;
            },
        };
        match content.field("msgtype").as_str() {
            Some(t) => {
                if !same_str(t, "m.text") {
                    return None;
                }
            },
            None => {
                return None;
            },
        }
        let text = match content.field("body").as_str() {
            Some(t) => str_trim(t),
            None => {
                return None;
            },
        };
        if text.as_str().is_empty() {
            return None;
        }
        let mut metadata: Vec<(String, Json)> = Vec::new();
        proof {
            assert(json_map(metadata@) =~= Map::empty());
        }
        if let Some(id) = &event.event_id {
            put_member(&mut metadata, "event_id", Json::text(id.as_str()));
        }
        put_member(&mut metadata, "room_id", Json::text(room_id));
        if let Some(ts) = event.origin_server_ts {
            put_member(&mut metadata, "origin_server_ts", Json::UInt(ts));
        }
        Some(
            Draft {
                sender_id: sender.clone(),
                sender_name: sender,
                session_id: room_id.to_owned(),
                content: text,
                metadata,
            },
        )
    }

    fn drafts_of_events(&self, room_id: &str, events: &Vec<RoomEvent>) -> (r: Vec<Draft>)
        ensures
            draft_views(r@) == admitted_events(
                texts(self.base.allow_from@),
                self.user_id@,
                room_id@,
                events@,
            ),
    {
        let ghost list = texts(self.base.allow_from@);
        let mut out: Vec<Draft> = Vec::new();
        let mut i: usize = 0;
        proof {
            assert(events@.take(0) =~= Seq::<RoomEvent>::empty());
            assert(draft_views(out@) =~= Seq::<DraftView>::empty());
        }
        while i < events.len()
            invariant
                i <= events@.len(),
                list == texts(self.base.allow_from@),
                draft_views(out@) == admitted_events(
                    list,
                    self.user_id@,
                    room_id@,
                    events@.take(i as int),
                ),
            decreases events.len() - i,
        {
            let ghost before = draft_views(out@);
            let ghost step = admitted_event(list, self.user_id@, room_id@, events@[i as int]);
            proof {
                assert(events@.take(i + 1).drop_last() =~= events@.take(i as int));
            }
            if let Some(d) = self.draft_of_event(room_id, &events[i]) {
                if self.base.is_allowed(d.sender_id.as_str()) || self.base.is_allowed(room_id) {
                    out.push(d);
                    proof {
                        assert(step == seq![d@]);
                    }
                }
            }
            proof {
                assert(draft_views(out@) =~= before + step);
            }
            i = i + 1;
        }
        proof {
            assert(events@.take(events@.len() as int) =~= events@);
        }
        out
    }

    fn drafts_of_rooms(&self, rooms: &Vec<(String, JoinedRoom)>) -> (r: Vec<Draft>)
        ensures
            draft_views(r@) == admitted_rooms(
                texts(self.base.allow_from@),
                self.user_id@,
                rooms@,
            ),
    {
        let ghost list = texts(self.base.allow_from@);
        let mut out: Vec<Draft> = Vec::new();
        let mut i: usize = 0;
        let none: Vec<RoomEvent> = Vec::new();
        proof {
            assert(rooms@.take(0) =~= Seq::<(String, JoinedRoom)>::empty());
            assert(draft_views(out@) =~= Seq::<DraftView>::empty());
        }
        while i < rooms.len()
            invariant
                i <= rooms@.len(),
                list == texts(self.base.allow_from@),
                none@ == Seq::<RoomEvent>::empty(),
                draft_views(out@) == admitted_rooms(list, self.user_id@, rooms@.take(i as int)),
            decreases rooms.len() - i,
        {
            let events: &Vec<RoomEvent> = match &rooms[i].1.timeline {
                Some(t) => match &t.events {
                    Some(e) => e,
                    None => &none,
                },
                None => &none,
            };
            let mut more = self.drafts_of_events(rooms[i].0.as_str(), events);
            proof {
                assert(rooms@.take(i + 1).drop_last() =~= rooms@.take(i as int));
                lemma_draft_views_add(out@, more@);
            }
            out.append(&mut more);
            i = i + 1;
        }
        proof {
            assert(rooms@.take(rooms@.len() as int) =~= rooms@);
        }
        out
    }

    /// The drafts that a sync leads to: the text messages whose sender or room
    /// the allowlist admits, in order.
    pub fn drafts_of_sync(&self, sync: &SyncResponse) -> (r: Vec<Draft>)
        ensures
            draft_views(r@) == admitted_sync(
                texts(self.base.allow_from@),
                self.user_id@,
                *sync,
            ),
    {
        if let Some(rooms) = &sync.rooms {
            if let Some(join) = &rooms.join {
                return self.drafts_of_rooms(join);
            }
        }
        let none: Vec<Draft> = Vec::new();
        proof {
            assert(draft_views(none@) =~= Seq::<DraftView>::empty());
        }
        none
    }

    /// What one round of syncing leads to: the messages to hand on, each under
    /// a fresh identifier, and the batch to continue from; after a failure
    /// (`None`) there is nothing to hand on, and the batch stays as it was.
    pub fn start(&self, next_batch: Option<String>, sync: Option<SyncResponse>) -> (r: (
        Option<String>,
        Vec<InboundMessage>,
        u64,
    ))
        ensures
            match sync {
                Some(s) => {
                    &&& r.0 matches Some(b) && b@ == s.next_batch@
                    &&& messages_of_drafts(
                        r.1@,
                        self.base.name@,
                        admitted_sync(texts(self.base.allow_from@), self.user_id@, s),
                    )
                    &&& r.2 == 0
                },
                None => r.0 == next_batch && r.1@.len() == 0 && r.2 == 10,
            },
    {
        match sync {
            Some(s) => {
                let drafts = self.drafts_of_sync(&s);
                let messages = self.compose_drafts(drafts);
                (Some(s.next_batch), messages, 0)
            },
            None => (next_batch, Vec::new(), 10),
        }
    }

    fn compose_drafts(&self, drafts: Vec<Draft>) -> (r: Vec<InboundMessage>)
        ensures
            messages_of_drafts(r@, self.base.name@, draft_views(drafts@)),
    {
        let mut out: Vec<InboundMessage> = Vec::new();
        let ghost all = draft_views(drafts@);
        for d in it: drafts
            invariant
                it.seq() == drafts@,
                all == draft_views(drafts@),
                messages_of_drafts(out@, self.base.name@, all.take(it.index() as int)),
        {
            proof {
                let k = it.index() as int;
                assert(all.take(k + 1) =~= all.take(k).push(d@));
            }
            let m = self.base.compose_message(
                fresh_uuid(),
                d.sender_id.as_str(),
                d.sender_name.as_str(),
                d.session_id.as_str(),
                d.content.as_str(),
                d.metadata,
            );
            out.push(m);
        }
        proof {
            assert(all.take(all.len() as int) =~= all);
        }
        out
    }
}

/// The bot never answers itself.
pub proof fn law_own_messages_are_ignored(bot: Seq<char>, room: Seq<char>, event: RoomEvent)
    requires
        bot.len() > 0,
        text_or_empty(event.sender) == bot,
    ensures
        event_draft(bot, room, event) is None,
{
}

/// A message from a room on the allowlist is handed on whoever sent it.
pub proof fn law_allowed_room_admits_every_sender(
    list: Seq<Seq<char>>,
    bot: Seq<char>,
    room: Seq<char>,
    event: RoomEvent,
)
    requires
        allows(list, room),
        event_draft(bot, room, event) is Some,
    ensures
        admitted_event(list, bot, room, event) == seq![event_draft(bot, room, event)->0],
{
}

} // verus!
