//! The session controller: the client-side chat state machine.
//!
//! The controller owns the roster, the transcript, the typing-presence set
//! and the emoji-picker flag. It folds inbound wire frames and local user
//! intents into that state and produces the outbound frames to send; the
//! transport, the input widget and the renderer live outside it and speak
//! to it through plain values.

use vstd::prelude::*;

use crate::codec::{
    decode_envelope, decode_message_data, decode_typing_status, enc_env, enc_typing,
    encode_envelope, encode_typing_status, p_env, p_msgdata, p_typing,
};
use crate::wire::{
    EnvelopeV, MessageData, MessageV, MsgTypes, TypingStatus, TypingV, WebSocketMessage,
    WireError,
};

verus! {

/// One roster entry: a user's name and the avatar reference derived from
/// it.
#[derive(Debug)]
pub struct UserProfile {
    pub name: String,
    pub avatar: String,
}

/// Mathematical view of a roster entry.
#[verifier::ext_equal]
pub ghost struct ProfileV {
    pub name: Seq<char>,
    pub avatar: Seq<char>,
}

impl View for UserProfile {
    type V = ProfileV;

    open spec fn view(&self) -> ProfileV {
        ProfileV { name: self.name@, avatar: self.avatar@ }
    }
}

impl DeepView for UserProfile {
    type V = ProfileV;

    open spec fn deep_view(&self) -> ProfileV {
        self.view()
    }
}

/// A key press, reduced to what the controller reads of it: the key name
/// and whether shift was held.
pub struct KeyEvent {
    pub key: String,
    pub shift_key: bool,
}

/// Mathematical view of a key press.
#[verifier::ext_equal]
pub ghost struct KeyEventV {
    pub key: Seq<char>,
    pub shift_key: bool,
}

impl View for KeyEvent {
    type V = KeyEventV;

    open spec fn view(&self) -> KeyEventV {
        KeyEventV { key: self.key@, shift_key: self.shift_key }
    }
}

/// A trigger handled by the controller: an inbound wire frame or a local
/// user intent. Intents that read the input widget carry its current
/// content as an argument.
pub enum Msg {
    /// An inbound wire frame arrived.
    HandleMsg(String),
    /// The user submitted the input box; the argument is its content.
    SubmitMessage(String),
    /// The user typed in the input box.
    InputChanged,
    /// The user toggled the emoji picker.
    ToggleEmojiPicker,
    /// The user picked an emoji glyph.
    SelectEmoji(String),
    /// A key went down in the input box; the second argument is the box's
    /// content.
    HandleKeyDown(KeyEvent, String),
}

/// Mathematical view of a trigger.
#[verifier::ext_equal]
pub ghost enum MsgV {
    HandleMsg(Seq<char>),
    SubmitMessage(Seq<char>),
    InputChanged,
    ToggleEmojiPicker,
    SelectEmoji(Seq<char>),
    HandleKeyDown(KeyEventV, Seq<char>),
}

impl View for Msg {
    type V = MsgV;

    open spec fn view(&self) -> MsgV {
        match self {
            Msg::HandleMsg(s) => MsgV::HandleMsg(s@),
            Msg::SubmitMessage(s) => MsgV::SubmitMessage(s@),
            Msg::InputChanged => MsgV::InputChanged,
            Msg::ToggleEmojiPicker => MsgV::ToggleEmojiPicker,
            Msg::SelectEmoji(s) => MsgV::SelectEmoji(s@),
            Msg::HandleKeyDown(ev, s) => MsgV::HandleKeyDown(ev@, s@),
        }
    }
}

/// What one trigger asks of the host: whether to redraw, which frames to
/// try to send (in order), and what to do with the input widget. A send
/// failure is reported by the transport and is not fatal; it rolls nothing
/// back.
pub struct Update {
    pub rerender: bool,
    pub outbound: Vec<String>,
    pub clear_input: bool,
    pub append_input: Option<String>,
    pub error: Option<WireError>,
}

/// Mathematical view of a trigger's outcome.
#[verifier::ext_equal]
pub ghost struct UpdateV {
    pub rerender: bool,
    pub outbound: Seq<Seq<char>>,
    pub clear_input: bool,
    pub append_input: Option<Seq<char>>,
    pub error: Option<WireError>,
}

impl View for Update {
    type V = UpdateV;

    open spec fn view(&self) -> UpdateV {
        UpdateV {
            rerender: self.rerender,
            outbound: self.outbound.deep_view(),
            clear_input: self.clear_input,
            append_input: self.append_input.deep_view(),
            error: self.error,
        }
    }
}

/// The head of every avatar reference.
pub open spec fn avatar_head() -> Seq<char> {
    "https://avatars.dicebear.com/api/adventurer-neutral/"@
}

/// The tail of every avatar reference.
pub open spec fn avatar_tail() -> Seq<char> {
    ".svg"@
}

/// The avatar reference derived from a user name.
pub open spec fn avatar_of(name: Seq<char>) -> Seq<char> {
    avatar_head() + name + avatar_tail()
}

/// The roster entry derived from a user name alone.
pub open spec fn profile_of(name: Seq<char>) -> ProfileV {
    ProfileV { name, avatar: avatar_of(name) }
}

/// The roster derived from a list of user names, in the order given.
pub open spec fn roster_of(names: Seq<Seq<char>>) -> Seq<ProfileV> {
    names.map_values(|n: Seq<char>| profile_of(n))
}

/// The roster entry for a sender: the first roster entry with that name,
/// or, for a sender absent from the roster, an entry derived on the fly
/// (and not written back).
pub open spec fn profile_for(users: Seq<ProfileV>, sender: Seq<char>) -> ProfileV
    decreases users.len(),
{
    if users.len() == 0 {
        profile_of(sender)
    } else if users[0].name == sender {
        users[0]
    } else {
        profile_for(users.skip(1), sender)
    }
}

/// Adding a typing user: a no-op when already present, else appended.
pub open spec fn add_typing(t: Seq<Seq<char>>, u: Seq<char>) -> Seq<Seq<char>> {
    if t.contains(u) {
        t
    } else {
        t.push(u)
    }
}

/// Removing a typing user: every occurrence leaves, order otherwise kept.
pub open spec fn remove_typing(t: Seq<Seq<char>>, u: Seq<char>) -> Seq<Seq<char>>
    decreases t.len(),
{
    if t.len() == 0 {
        t
    } else if t[0] == u {
        remove_typing(t.skip(1), u)
    } else {
        seq![t[0]] + remove_typing(t.skip(1), u)
    }
}

/// No two entries are the same string.
pub open spec fn distinct_strs(t: Seq<Seq<char>>) -> bool {
    forall|i: int, j: int| 0 <= i < j < t.len() ==> t[i] != t[j]
}

/// A whitespace character, as the input-blankness rule counts them.
pub open spec fn is_space(c: char) -> bool {
    ||| c == ' '
    ||| c == '\u{9}'
    ||| c == '\u{a}'
    ||| c == '\u{b}'
    ||| c == '\u{c}'
    ||| c == '\u{d}'
    ||| c == '\u{85}'
    ||| c == '\u{a0}'
    ||| c == '\u{1680}'
    ||| c == '\u{2000}'
    ||| c == '\u{2001}'
    ||| c == '\u{2002}'
    ||| c == '\u{2003}'
    ||| c == '\u{2004}'
    ||| c == '\u{2005}'
    ||| c == '\u{2006}'
    ||| c == '\u{2007}'
    ||| c == '\u{2008}'
    ||| c == '\u{2009}'
    ||| c == '\u{200a}'
    ||| c == '\u{2028}'
    ||| c == '\u{2029}'
    ||| c == '\u{202f}'
    ||| c == '\u{205f}'
    ||| c == '\u{3000}'
}

/// Text that submits nothing: empty or whitespace only.
pub open spec fn is_blank(s: Seq<char>) -> bool {
    forall|i: int| 0 <= i < s.len() ==> is_space(s[i])
}

/// A message body tagged as image payload: one ending in `.gif`.
pub open spec fn is_image(s: Seq<char>) -> bool {
    s.len() >= 4 && s.subrange(s.len() - 4, s.len() as int) == ".gif"@
}

/// The typing indicator line: nobody, one name, two names, or a generic
/// line for three or more.
pub open spec fn indicator_of(t: Seq<Seq<char>>) -> Seq<char> {
    if t.len() == 0 {
        Seq::empty()
    } else if t.len() == 1 {
        t[0] + " is typing..."@
    } else if t.len() == 2 {
        t[0] + " and "@ + t[1] + " are typing..."@
    } else {
        "Several people are typing..."@
    }
}

/// The wire frame registering a user at session start.
pub open spec fn register_frame(username: Seq<char>) -> Seq<char> {
    enc_env(
        EnvelopeV {
            kind: MsgTypes::Register,
            data_array: Option::None,
            data: Option::Some(username),
        },
    )
}

/// The wire frame carrying submitted message text.
pub open spec fn message_frame(text: Seq<char>) -> Seq<char> {
    enc_env(
        EnvelopeV { kind: MsgTypes::Message, data_array: Option::None, data: Option::Some(text) },
    )
}

/// The wire frame carrying a typing signal for a user.
pub open spec fn typing_frame(username: Seq<char>, is_typing: bool) -> Seq<char> {
    enc_env(
        EnvelopeV {
            kind: MsgTypes::Typing,
            data_array: Option::None,
            data: Option::Some(enc_typing(TypingV { username, is_typing })),
        },
    )
}

/// Mathematical view of the session state.
#[verifier::ext_equal]
pub ghost struct ChatV {
    pub username: Seq<char>,
    pub users: Seq<ProfileV>,
    pub messages: Seq<MessageV>,
    pub typing_users: Seq<Seq<char>>,
    pub show_emoji_picker: bool,
}

/// An outcome that changes nothing and sends nothing.
pub open spec fn quiet(rerender: bool, error: Option<WireError>) -> UpdateV {
    UpdateV {
        rerender,
        outbound: Seq::empty(),
        clear_input: false,
        append_input: Option::None,
        error,
    }
}

/// What one inbound frame does to the state.
pub open spec fn spec_handle_frame(s: ChatV, frame: Seq<char>) -> (ChatV, UpdateV) {
    match p_env(frame) {
        Option::None => (s, quiet(false, Option::Some(WireError::MalformedEnvelope))),
        Option::Some(e) => match e.kind {
            MsgTypes::Users => (
                ChatV { users: roster_of(e.data_array.unwrap()), ..s },
                quiet(true, Option::None),
            ),
            MsgTypes::Message => match p_msgdata(e.data.unwrap()) {
                Option::None => (s, quiet(false, Option::Some(WireError::MalformedPayload))),
                Option::Some(md) => (
                    ChatV { messages: s.messages.push(md), ..s },
                    quiet(true, Option::None),
                ),
            },
            MsgTypes::Typing => match p_typing(e.data.unwrap()) {
                Option::None => (s, quiet(false, Option::Some(WireError::MalformedPayload))),
                Option::Some(t) => (
                    ChatV {
                        typing_users: if t.is_typing {
                            add_typing(s.typing_users, t.username)
                        } else {
                            remove_typing(s.typing_users, t.username)
                        },
                        ..s
                    },
                    quiet(true, Option::None),
                ),
            },
            MsgTypes::Register => (s, quiet(false, Option::None)),
        },
    }
}

/// What submitting the input box does: non-blank text goes out as one
/// message frame followed by a stop-typing frame and the box is cleared;
/// blank text sends nothing; the emoji picker closes either way.
pub open spec fn spec_submit(s: ChatV, text: Seq<char>) -> (ChatV, UpdateV) {
    let s2 = ChatV { show_emoji_picker: false, ..s };
    if !is_blank(text) {
        (
            s2,
            UpdateV {
                rerender: true,
                outbound: seq![message_frame(text), typing_frame(s.username, false)],
                clear_input: true,
                append_input: Option::None,
                error: Option::None,
            },
        )
    } else {
        (
            s2,
            UpdateV {
                rerender: true,
                outbound: Seq::empty(),
                clear_input: false,
                append_input: Option::None,
                error: Option::None,
            },
        )
    }
}

/// The transition function of the controller: next state and outcome for
/// each trigger.
pub open spec fn spec_update(s: ChatV, m: MsgV) -> (ChatV, UpdateV) {
    match m {
        MsgV::HandleMsg(frame) => spec_handle_frame(s, frame),
        MsgV::SubmitMessage(text) => spec_submit(s, text),
        MsgV::InputChanged => (
            s,
            UpdateV {
                rerender: false,
                outbound: seq![typing_frame(s.username, true)],
                clear_input: false,
                append_input: Option::None,
                error: Option::None,
            },
        ),
        MsgV::ToggleEmojiPicker => (
            ChatV { show_emoji_picker: !s.show_emoji_picker, ..s },
            quiet(true, Option::None),
        ),
        MsgV::SelectEmoji(g) => (
            s,
            UpdateV {
                rerender: false,
                outbound: Seq::empty(),
                clear_input: false,
                append_input: Option::Some(g),
                error: Option::None,
            },
        ),
        MsgV::HandleKeyDown(ev, text) => {
            if ev.key == "Enter"@ && !ev.shift_key {
                spec_submit(s, text)
            } else {
                (s, quiet(false, Option::None))
            }
        },
    }
}

/// The session state: roster, transcript, typing presence and the emoji
/// picker flag, plus the session's own user name.
pub struct Chat {
    pub username: String,
    pub users: Vec<UserProfile>,
    pub messages: Vec<MessageData>,
    pub typing_users: Vec<String>,
    pub show_emoji_picker: bool,
}

impl View for Chat {
    type V = ChatV;

    open spec fn view(&self) -> ChatV {
        ChatV {
            username: self.username@,
            users: self.users.deep_view(),
            messages: self.messages.deep_view(),
            typing_users: self.typing_users.deep_view(),
            show_emoji_picker: self.show_emoji_picker,
        }
    }
}

impl Chat {
    /// The state invariant: the typing set holds no duplicate names.
    pub open spec fn wf(&self) -> bool {
        distinct_strs(self@.typing_users)
    }
}

impl Chat {
    /// Starts a session for the given user: the initial state, and the
    /// `Register` frame to send. The session is active as soon as the frame
    /// is dispatched; a send failure is reported by the transport and does
    /// not block it. The caller resolves the identity first: without a user
    /// name no session is created.
    pub fn create(username: String) -> (r: (Chat, String))
        ensures
            r.0@ == (ChatV {
                username: username@,
                users: Seq::empty(),
                messages: Seq::empty(),
                typing_users: Seq::empty(),
                show_emoji_picker: false,
            }),
            r.0.wf(),
            r.1@ == register_frame(username@),
    {
        let m = WebSocketMessage {
            message_type: MsgTypes::Register,
            data_array: None,
            data: Some(username.clone()),
        };
        let frame = encode_envelope(&m);
        let chat = Chat {
            username,
            users: Vec::new(),
            messages: Vec::new(),
            typing_users: Vec::new(),
            show_emoji_picker: false,
        };
        proof {
            assert(chat@ =~= (ChatV {
                username: chat.username@,
                users: Seq::empty(),
                messages: Seq::empty(),
                typing_users: Seq::empty(),
                show_emoji_picker: false,
            }));
        }
        (chat, frame)
    }

    /// Builds the frame that signals whether this session's user is
    /// typing.
    pub fn send_typing_status(&self, is_typing: bool) -> (r: String)
        ensures
            r@ == typing_frame(self@.username, is_typing),
    {
        let t = TypingStatus { username: self.username.clone(), is_typing };
        let payload = encode_typing_status(&t);
        let m = WebSocketMessage {
            message_type: MsgTypes::Typing,
            data_array: None,
            data: Some(payload),
        };
        encode_envelope(&m)
    }

    /// The derived typing indicator line for the current state.
    pub fn typing_indicator(&self) -> (r: String)
        ensures
            r@ == indicator_of(self@.typing_users),
    {
        let ghost tv = self@.typing_users;
        if self.typing_users.len() == 0 {
            let r = String::new();
            assert(r@ =~= indicator_of(tv));
            r
        } else if self.typing_users.len() == 1 {
            proof {
                assert(tv[0] == self.typing_users@[0]@);
            }
            let mut out = self.typing_users[0].clone();
            out.append(" is typing...");
            assert(out@ =~= indicator_of(tv));
            out
        } else if self.typing_users.len() == 2 {
            proof {
                assert(tv[0] == self.typing_users@[0]@);
                assert(tv[1] == self.typing_users@[1]@);
            }
            let mut out = self.typing_users[0].clone();
            out.append(" and ");
            out.append(self.typing_users[1].as_str());
            out.append(" are typing...");
            assert(out@ =~= indicator_of(tv));
            out
        } else {
            String::from_str("Several people are typing...")
        }
    }

    /// The roster entry to draw for a message's sender: the first roster
    /// entry with that name, or one derived on the fly for a sender not on
    /// the roster (never written back).
    pub fn profile_for_sender(&self, sender: &String) -> (r: UserProfile)
        ensures
            r@ == profile_for(self@.users, sender@),
    {
        let ghost uv = self@.users;
        proof {
            assert(uv.skip(0) =~= uv);
        }
        let mut i: usize = 0;
        while i < self.users.len()
            invariant
                uv == self@.users,
                i <= self.users.len(),
                profile_for(uv, sender@) == profile_for(uv.skip(i as int), sender@),
            decreases self.users.len() - i,
        {
            proof {
                assert(uv.skip(i as int)[0] == uv[i as int]);
                assert(uv.skip(i as int).skip(1) =~= uv.skip(i + 1));
                assert(uv[i as int] == self.users@[i as int]@);
            }
            if self.users[i].name == *sender {
                let p = UserProfile {
                    name: self.users[i].name.clone(),
                    avatar: self.users[i].avatar.clone(),
                };
                proof {
                    assert(p@ =~= uv[i as int]);
                }
                return p;
            }
            i = i + 1;
        }
        proof {
            assert(uv.skip(uv.len() as int).len() == 0);
        }
        let av = derive_avatar(sender.as_str());
        let p = UserProfile { name: sender.clone(), avatar: av };
        proof {
            assert(p@ =~= profile_of(sender@));
        }
        p
    }

    /// Handles one trigger: mutates the state as `spec_update` says and
    /// returns what the host must do. Decode failures mutate nothing.
    pub fn update(&mut self, msg: Msg) -> (r: Update)
        requires
            old(self).wf(),
        ensures
            final(self)@ == spec_update(old(self)@, msg@).0,
            r@ == spec_update(old(self)@, msg@).1,
            final(self).wf(),
    {
        let ghost s0 = old(self)@;
        let ghost mv = msg@;
        match msg {
            Msg::HandleMsg(frame) => {
                match decode_envelope(frame.as_str()) {
                    Err(e) => quiet_update(false, Some(e)),
                    Ok(m) => {
                        let ghost ev = m@;
                        let WebSocketMessage { message_type, data_array, data } = m;
                        match message_type {
                            MsgTypes::Users => {
                                match data_array {
                                    Some(names) => {
                                        let ghost nv = names.deep_view();
                                        let mut users: Vec<UserProfile> = Vec::new();
                                        let mut i: usize = 0;
                                        while i < names.len()
                                            invariant
                                                nv == names.deep_view(),
                                                i <= names.len(),
                                                users.deep_view() == roster_of(nv).take(i as int),
                                            decreases names.len() - i,
                                        {
                                            proof {
                                                assert(nv[i as int] == names@[i as int]@);
                                            }
                                            let av = derive_avatar(names[i].as_str());
                                            let ghost udv = users.deep_view();
                                            users.push(
                                                UserProfile { name: names[i].clone(), avatar: av },
                                            );
                                            proof {
                                                assert(users.deep_view() =~= udv.push(
                                                    profile_of(nv[i as int]),
                                                ));
                                                assert(users.deep_view() =~= roster_of(nv).take(
                                                    i + 1,
                                                ));
                                            }
                                            i = i + 1;
                                        }
                                        proof {
                                            assert(roster_of(nv).take(names.len() as int)
                                                =~= roster_of(nv));
                                        }
                                        self.users = users;
                                        proof {
                                            assert(self@ =~= (ChatV {
                                                users: roster_of(ev.data_array.unwrap()),
                                                ..s0
                                            }));
                                        }
                                        quiet_update(true, None)
                                    },
                                    None => vstd::pervasive::unreached(),
                                }
                            },
                            MsgTypes::Message => {
                                match data {
                                    Some(payload) => {
                                        match decode_message_data(payload.as_str()) {
                                            Err(e) => quiet_update(false, Some(e)),
                                            Ok(md) => {
                                                let ghost mdv = md@;
                                                self.messages.push(md);
                                                proof {
                                                    assert(self@.messages =~= s0.messages.push(
                                                        mdv,
                                                    ));
                                                    assert(self@ =~= (ChatV {
                                                        messages: s0.messages.push(
                                                            p_msgdata(
                                                                ev.data.unwrap(),
                                                            ).unwrap(),
                                                        ),
                                                        ..s0
                                                    }));
                                                }
                                                quiet_update(true, None)
                                            },
                                        }
                                    },
                                    None => vstd::pervasive::unreached(),
                                }
                            },
                            MsgTypes::Typing => {
                                match data {
                                    Some(payload) => {
                                        match decode_typing_status(payload.as_str()) {
                                            Err(e) => quiet_update(false, Some(e)),
                                            Ok(t) => {
                                                let TypingStatus { username: tu, is_typing } = t;
                                                let ghost tuv = tu@;
                                                if is_typing {
                                                    if !contains_user(&self.typing_users, &tu) {
                                                        let ghost tdv =
                                                            self.typing_users.deep_view();
                                                        self.typing_users.push(tu);
                                                        proof {
                                                            assert(self.typing_users.deep_view()
                                                                =~= tdv.push(tuv));
                                                        }
                                                    }
                                                    proof {
                                                        lemma_add_typing_distinct(
                                                            s0.typing_users,
                                                            tuv,
                                                        );
                                                        assert(self@ =~= (ChatV {
                                                            typing_users: add_typing(
                                                                s0.typing_users,
                                                                tuv,
                                                            ),
                                                            ..s0
                                                        }));
                                                    }
                                                } else {
                                                    remove_user(&mut self.typing_users, &tu);
                                                    proof {
                                                        lemma_remove_typing_distinct(
                                                            s0.typing_users,
                                                            tuv,
                                                        );
                                                        assert(self@ =~= (ChatV {
                                                            typing_users: remove_typing(
                                                                s0.typing_users,
                                                                tuv,
                                                            ),
                                                            ..s0
                                                        }));
                                                    }
                                                }
                                                quiet_update(true, None)
                                            },
                                        }
                                    },
                                    None => vstd::pervasive::unreached(),
                                }
                            },
                            MsgTypes::Register => quiet_update(false, None),
                        }
                    },
                }
            },
            Msg::SubmitMessage(text) => self.do_submit(text),
            Msg::InputChanged => {
                let f = self.send_typing_status(true);
                let mut outbound: Vec<String> = Vec::new();
                outbound.push(f);
                let r = Update {
                    rerender: false,
                    outbound,
                    clear_input: false,
                    append_input: None,
                    error: None,
                };
                proof {
                    assert(r@.outbound =~= seq![typing_frame(s0.username, true)]);
                    assert(r@ =~= spec_update(s0, mv).1);
                }
                r
            },
            Msg::ToggleEmojiPicker => {
                self.show_emoji_picker = !self.show_emoji_picker;
                proof {
                    assert(self@ =~= (ChatV { show_emoji_picker: !s0.show_emoji_picker, ..s0 }));
                }
                quiet_update(true, None)
            },
            Msg::SelectEmoji(glyph) => {
                let r = Update {
                    rerender: false,
                    outbound: Vec::new(),
                    clear_input: false,
                    append_input: Some(glyph),
                    error: None,
                };
                proof {
                    assert(r@.outbound =~= Seq::<Seq<char>>::empty());
                    assert(r@ =~= spec_update(s0, mv).1);
                }
                r
            },
            Msg::HandleKeyDown(ev, text) => {
                let enter = String::from_str("Enter");
                if ev.key == enter && !ev.shift_key {
                    self.do_submit(text)
                } else {
                    quiet_update(false, None)
                }
            },
        }
    }

    /// Submitting the input box; see `spec_submit`.
    fn do_submit(&mut self, text: String) -> (r: Update)
        ensures
            final(self)@ == spec_submit(old(self)@, text@).0,
            r@ == spec_submit(old(self)@, text@).1,
            final(self)@.typing_users == old(self)@.typing_users,
    {
        let ghost s0 = old(self)@;
        let ghost tv = text@;
        let blank = is_blank_str(text.as_str());
        let mut outbound: Vec<String> = Vec::new();
        let mut clear = false;
        if !blank {
            let m = WebSocketMessage {
                message_type: MsgTypes::Message,
                data_array: None,
                data: Some(text),
            };
            let f1 = encode_envelope(&m);
            outbound.push(f1);
            let f2 = self.send_typing_status(false);
            outbound.push(f2);
            clear = true;
            proof {
                assert(outbound.deep_view() =~= seq![
                    message_frame(tv),
                    typing_frame(s0.username, false),
                ]);
            }
        } else {
            proof {
                assert(outbound.deep_view() =~= Seq::<Seq<char>>::empty());
            }
        }
        self.show_emoji_picker = false;
        let r = Update {
            rerender: true,
            outbound,
            clear_input: clear,
            append_input: None,
            error: None,
        };
        proof {
            assert(self@ =~= spec_submit(s0, tv).0);
            assert(r@ =~= spec_submit(s0, tv).1);
        }
        r
    }
}

/// An outcome that changes nothing and sends nothing.
fn quiet_update(rerender: bool, error: Option<WireError>) -> (r: Update)
    ensures
        r@ == quiet(rerender, error),
{
    let r = Update {
        rerender,
        outbound: Vec::new(),
        clear_input: false,
        append_input: None,
        error,
    };
    proof {
        assert(r@.outbound =~= Seq::<Seq<char>>::empty());
        assert(r@ =~= quiet(rerender, error));
    }
    r
}

/// The avatar reference derived from a user name.
pub fn derive_avatar(name: &str) -> (r: String)
    ensures
        r@ == avatar_of(name@),
{
    let mut out = String::from_str("https://avatars.dicebear.com/api/adventurer-neutral/");
    out.append(name);
    out.append(".svg");
    assert(out@ =~= avatar_of(name@));
    out
}

/// Whether a message body is drawn as an image.
pub fn is_image_body(body: &str) -> (r: bool)
    ensures
        r == is_image(body@),
{
    proof {
        reveal_strlit(".gif");
    }
    let n = body.unicode_len();
    if n < 4 {
        return false;
    }
    let c1 = body.get_char(n - 4);
    let c2 = body.get_char(n - 3);
    let c3 = body.get_char(n - 2);
    let c4 = body.get_char(n - 1);
    let ok = c1 == '.' && c2 == 'g' && c3 == 'i' && c4 == 'f';
    proof {
        let sub = body@.subrange(n - 4, n as int);
        assert(sub[0] == body@[n - 4] && sub[1] == body@[n - 3] && sub[2] == body@[n - 2] && sub[3]
            == body@[n - 1]);
        if ok {
            assert(sub =~= ".gif"@);
        }
    }
    ok
}

/// Whether text submits nothing: empty or whitespace only.
fn is_blank_str(s: &str) -> (r: bool)
    ensures
        r == is_blank(s@),
{
    let n = s.unicode_len();
    let mut i: usize = 0;
    while i < n
        invariant
            n == s@.len(),
            i <= n,
            forall|k: int| 0 <= k < i ==> is_space(s@[k]),
        decreases n - i,
    {
        let c = s.get_char(i);
        let sp = c == ' ' || c == '\u{9}' || c == '\u{a}' || c == '\u{b}' || c == '\u{c}' || c
            == '\u{d}' || c == '\u{85}' || c == '\u{a0}' || c == '\u{1680}' || c == '\u{2000}' || c
            == '\u{2001}' || c == '\u{2002}' || c == '\u{2003}' || c == '\u{2004}' || c
            == '\u{2005}' || c == '\u{2006}' || c == '\u{2007}' || c == '\u{2008}' || c
            == '\u{2009}' || c == '\u{200a}' || c == '\u{2028}' || c == '\u{2029}' || c
            == '\u{202f}' || c == '\u{205f}' || c == '\u{3000}';
        if !sp {
            proof {
                assert(!is_space(s@[i as int]));
            }
            return false;
        }
        i = i + 1;
    }
    true
}

/// Whether the typing set already holds this name.
fn contains_user(v: &Vec<String>, u: &String) -> (r: bool)
    ensures
        r == v.deep_view().contains(u@),
{
    let mut i: usize = 0;
    while i < v.len()
        invariant
            i <= v.len(),
            forall|k: int| 0 <= k < i ==> v.deep_view()[k] != u@,
        decreases v.len() - i,
    {
        proof {
            assert(v.deep_view()[i as int] == v@[i as int]@);
        }
        if v[i] == *u {
            proof {
                assert(v.deep_view().contains(u@));
            }
            return true;
        }
        i = i + 1;
    }
    proof {
        assert(!v.deep_view().contains(u@));
    }
    false
}

/// Removes every occurrence of the name, keeping the order of the rest.
fn remove_user(v: &mut Vec<String>, u: &String)
    ensures
        final(v).deep_view() == remove_typing(old(v).deep_view(), u@),
{
    let ghost dv = old(v).deep_view();
    let mut out: Vec<String> = Vec::new();
    proof {
        assert(dv.skip(0) =~= dv);
        assert(out.deep_view() + remove_typing(dv, u@) =~= remove_typing(dv, u@));
    }
    let mut i: usize = 0;
    while i < v.len()
        invariant
            v@ == old(v)@,
            dv == v.deep_view(),
            i <= v.len(),
            out.deep_view() + remove_typing(dv.skip(i as int), u@) == remove_typing(dv, u@),
        decreases v.len() - i,
    {
        proof {
            assert(dv.skip(i as int)[0] == dv[i as int]);
            assert(dv.skip(i as int).skip(1) =~= dv.skip(i + 1));
            assert(dv[i as int] == v@[i as int]@);
        }
        if v[i] == *u {
            proof {
                assert(out.deep_view() + remove_typing(dv.skip(i + 1), u@) =~= remove_typing(
                    dv,
                    u@,
                ));
            }
        } else {
            let ghost odv = out.deep_view();
            out.push(v[i].clone());
            proof {
                assert(out.deep_view() =~= odv.push(dv[i as int]));
                assert(remove_typing(dv.skip(i as int), u@) == seq![dv[i as int]] + remove_typing(
                    dv.skip(i + 1),
                    u@,
                ));
                assert(odv + (seq![dv[i as int]] + remove_typing(dv.skip(i + 1), u@))
                    =~= out.deep_view() + remove_typing(dv.skip(i + 1), u@));
            }
        }
        i = i + 1;
    }
    proof {
        assert(dv.skip(dv.len() as int).len() == 0);
        assert(out.deep_view() + remove_typing(dv.skip(dv.len() as int), u@) =~= out.deep_view());
    }
    *v = out;
}

proof fn lemma_cons_contains(a: Seq<Seq<char>>, h: Seq<char>, v: Seq<char>)
    ensures
        (seq![h] + a).contains(v) <==> (h == v || a.contains(v)),
{
    let c = seq![h] + a;
    if c.contains(v) {
        let k = choose|k: int| 0 <= k < c.len() && c[k] == v;
        if k > 0 {
            assert(a[k - 1] == v);
        }
    }
    if h == v {
        assert(c[0] == v);
    }
    if a.contains(v) {
        let k = choose|k: int| 0 <= k < a.len() && a[k] == v;
        assert(c[k + 1] == v);
    }
}

proof fn lemma_skip1_contains(t: Seq<Seq<char>>, v: Seq<char>)
    requires
        t.len() > 0,
    ensures
        t.contains(v) <==> (t[0] == v || t.skip(1).contains(v)),
{
    if t.contains(v) {
        let k = choose|k: int| 0 <= k < t.len() && t[k] == v;
        if k > 0 {
            assert(t.skip(1)[k - 1] == v);
        }
    }
    if t.skip(1).contains(v) {
        let k = choose|k: int| 0 <= k < t.skip(1).len() && t.skip(1)[k] == v;
        assert(t[k + 1] == v);
    }
}

/// What the typing set holds after a removal: everything but the removed
/// name.
pub proof fn lemma_remove_typing_contains(t: Seq<Seq<char>>, u: Seq<char>, v: Seq<char>)
    ensures
        remove_typing(t, u).contains(v) <==> (t.contains(v) && v != u),
    decreases t.len(),
{
    if t.len() == 0 {
        if t.contains(v) {
            let k = choose|k: int| 0 <= k < t.len() && t[k] == v;
        }
        if remove_typing(t, u).contains(v) {
            let k = choose|k: int| 0 <= k < t.len() && t[k] == v;
        }
    } else {
        lemma_remove_typing_contains(t.skip(1), u, v);
        lemma_skip1_contains(t, v);
        if t[0] == u {
        } else {
            lemma_cons_contains(remove_typing(t.skip(1), u), t[0], v);
        }
    }
}

/// Law: a typing set without duplicates stays without duplicates when a
/// name is added; a name already present is not added again.
pub proof fn lemma_add_typing_distinct(t: Seq<Seq<char>>, u: Seq<char>)
    requires
        distinct_strs(t),
    ensures
        distinct_strs(add_typing(t, u)),
{
    if !t.contains(u) {
        let t2 = t.push(u);
        assert forall|i: int, j: int| 0 <= i < j < t2.len() implies t2[i] != t2[j] by {
            if j == t.len() {
                if t[i] == u {
                    assert(t.contains(u));
                }
            }
        }
    }
}

/// Law: a typing set without duplicates stays without duplicates when a
/// name is removed.
pub proof fn lemma_remove_typing_distinct(t: Seq<Seq<char>>, u: Seq<char>)
    requires
        distinct_strs(t),
    ensures
        distinct_strs(remove_typing(t, u)),
    decreases t.len(),
{
    if t.len() == 0 {
    } else {
        assert(distinct_strs(t.skip(1))) by {
            assert forall|i: int, j: int| 0 <= i < j < t.skip(1).len() implies t.skip(1)[i]
                != t.skip(1)[j] by {
                assert(t.skip(1)[i] == t[i + 1] && t.skip(1)[j] == t[j + 1]);
            }
        };
        lemma_remove_typing_distinct(t.skip(1), u);
        if t[0] == u {
        } else {
            let r = remove_typing(t.skip(1), u);
            assert(!r.contains(t[0])) by {
                lemma_remove_typing_contains(t.skip(1), u, t[0]);
                if t.skip(1).contains(t[0]) {
                    let k = choose|k: int|
                        0 <= k < t.skip(1).len() && t.skip(1)[k] == t[0];
                    assert(t[k + 1] == t[0]);
                }
            };
            let c = seq![t[0]] + r;
            assert forall|i: int, j: int| 0 <= i < j < c.len() implies c[i] != c[j] by {
                if i == 0 {
                    assert(c[j] == r[j - 1]);
                    if r[j - 1] == t[0] {
                        assert(r.contains(t[0]));
                    }
                } else {
                    assert(c[i] == r[i - 1] && c[j] == r[j - 1]);
                }
            }
        }
    }
}

/// Law: a stop-typing signal for a name not in the typing set is a no-op.
pub proof fn lemma_remove_typing_absent_noop(t: Seq<Seq<char>>, u: Seq<char>)
    requires
        !t.contains(u),
    ensures
        remove_typing(t, u) == t,
    decreases t.len(),
{
    if t.len() == 0 {
    } else {
        lemma_skip1_contains(t, u);
        lemma_remove_typing_absent_noop(t.skip(1), u);
        assert(seq![t[0]] + t.skip(1) =~= t);
    }
}

/// Law: every trigger keeps the typing set free of duplicate names.
pub proof fn lemma_update_preserves_distinct(s: ChatV, m: MsgV)
    requires
        distinct_strs(s.typing_users),
    ensures
        distinct_strs(spec_update(s, m).0.typing_users),
{
    match m {
        MsgV::HandleMsg(frame) => {
            match p_env(frame) {
                Option::None => {
                },
                Option::Some(e) => {
                    if e.kind == MsgTypes::Typing {
                        match p_typing(e.data.unwrap()) {
                            Option::None => {
                            },
                            Option::Some(t) => {
                                if t.is_typing {
                                    lemma_add_typing_distinct(s.typing_users, t.username);
                                } else {
                                    lemma_remove_typing_distinct(s.typing_users, t.username);
                                }
                            },
                        }
                    }
                },
            }
        },
        _ => {
        },
    }
}

/// Law: after an inbound `Users` frame the roster is exactly the names
/// that frame lists, in the order given, each with the derived avatar —
/// whatever the roster held before.
pub proof fn lemma_roster_follows_latest_users(s: ChatV, frame: Seq<char>)
    requires
        p_env(frame) matches Some(e) && e.kind == MsgTypes::Users,
    ensures
        ({
            let names = p_env(frame).unwrap().data_array.unwrap();
            let s2 = spec_update(s, MsgV::HandleMsg(frame)).0;
            &&& s2.users == roster_of(names)
            &&& s2.users.len() == names.len()
            &&& (forall|i: int|
                0 <= i < names.len() ==> s2.users[i] == (ProfileV {
                    name: names[i],
                    avatar: avatar_of(names[i]),
                }))
            &&& s2.messages == s.messages
            &&& s2.typing_users == s.typing_users
        }),
{
}

/// Law: the roster after a `Users` frame does not depend on the state the
/// frame found; over any sequence of inbound frames, the most recent
/// `Users` frame alone decides the roster.
pub proof fn lemma_roster_state_independent(s1: ChatV, s2: ChatV, frame: Seq<char>)
    requires
        p_env(frame) matches Some(e) && e.kind == MsgTypes::Users,
    ensures
        spec_update(s1, MsgV::HandleMsg(frame)).0.users == spec_update(
            s2,
            MsgV::HandleMsg(frame),
        ).0.users,
{
}

/// Law: a frame that is not a structurally valid envelope changes nothing;
/// the error is reported and nothing is sent or redrawn.
pub proof fn lemma_malformed_frame_no_change(s: ChatV, frame: Seq<char>)
    requires
        p_env(frame) is None,
    ensures
        spec_update(s, MsgV::HandleMsg(frame)).0 == s,
        spec_update(s, MsgV::HandleMsg(frame)).1 == quiet(
            false,
            Option::Some(WireError::MalformedEnvelope),
        ),
{
}

/// Law: a well-formed envelope whose inner payload is malformed changes
/// nothing; the error is reported and nothing is sent or redrawn.
pub proof fn lemma_malformed_payload_no_change(s: ChatV, frame: Seq<char>)
    requires
        p_env(frame) matches Some(e) && match e.kind {
            MsgTypes::Message => p_msgdata(e.data.unwrap()) is None,
            MsgTypes::Typing => p_typing(e.data.unwrap()) is None,
            _ => false,
        },
    ensures
        spec_update(s, MsgV::HandleMsg(frame)).0 == s,
        spec_update(s, MsgV::HandleMsg(frame)).1 == quiet(
            false,
            Option::Some(WireError::MalformedPayload),
        ),
{
}

/// Law: an Enter key press without shift is exactly a submit of the input
/// box's content.
pub proof fn lemma_enter_submits(s: ChatV, ev: KeyEventV, text: Seq<char>)
    requires
        ev.key == "Enter"@,
        !ev.shift_key,
    ensures
        spec_update(s, MsgV::HandleKeyDown(ev, text)) == spec_update(
            s,
            MsgV::SubmitMessage(text),
        ),
{
}

} // verus!
