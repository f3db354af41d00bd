//! The registry: every room of the process, each under its own code.

use crate::room_state::{RoomAction, RoomState, RoomView, VotingStage};
use crate::pages::ranking_page::RankingPage;
use crate::pages::results_page::ResultsPage;
use crate::pages::veto_page::VetoPage;
use crate::pages::{Page, PageView};
use crate::BroadcastMsg;
use crate::text::{ascii_lower, to_ascii_lowercase};
use std::collections::HashMap;
use vstd::prelude::*;

verus! {

/// The number of characters of a room code.
pub const ROOM_CODE_LENGTH: usize = 4;

/// How often a fresh code is drawn again before room creation gives up.
pub const MAX_ROOM_CODE_ATTEMPTS: usize = 100;

/// Whether `c` is one of the letters `a` to `z`, of which room codes are
/// made.
pub open spec fn is_code_letter(c: char) -> bool {
    'a' <= c && c <= 'z'
}

/// Whether `code` has the form of a room code.
pub open spec fn is_room_code(code: Seq<char>) -> bool {
    &&& code.len() == ROOM_CODE_LENGTH
    &&& forall|i: int| 0 <= i < code.len() ==> is_code_letter(#[trigger] code[i])
}

/// The place of a code letter in the alphabet, from 0.
pub open spec fn letter_number(c: char) -> int {
    c as int - 'a' as int
}

/// The number that stands for a room code: its letters read as digits to
/// the base 26. Different codes have different numbers.
pub open spec fn code_number(code: Seq<char>) -> int {
    ((letter_number(code[0]) * 26 + letter_number(code[1])) * 26 + letter_number(code[2])) * 26
        + letter_number(code[3])
}

/// Room codes with the same number are the same code.
pub proof fn lemma_code_number_is_one_to_one(a: Seq<char>, b: Seq<char>)
    requires
        is_room_code(a),
        is_room_code(b),
        code_number(a) == code_number(b),
    ensures
        a == b,
{
    assert(is_code_letter(a[0]) && is_code_letter(a[1]) && is_code_letter(a[2]) && is_code_letter(
        a[3],
    ));
    assert(is_code_letter(b[0]) && is_code_letter(b[1]) && is_code_letter(b[2]) && is_code_letter(
        b[3],
    ));
    assert(letter_number(a[3]) == letter_number(b[3]));
    assert(letter_number(a[2]) == letter_number(b[2]));
    assert(letter_number(a[1]) == letter_number(b[1]));
    assert(letter_number(a[0]) == letter_number(b[0]));
    assert(a =~= b);
}

/// The number of `code`, if it has the form of a room code.
pub fn code_key(code: &str) -> (key: Option<u32>)
    ensures
        key is Some <==> is_room_code(code@),
        key matches Some(n) ==> n == code_number(code@),
{
    let chars = crate::text::chars_of(code);
    if chars.len() != ROOM_CODE_LENGTH {
        return None;
    }
    let mut key: u32 = 0;
    let mut i: usize = 0;
    while i < chars.len()
        invariant
            i <= chars.len(),
            chars.len() == 4,
            chars@ == code@,
            forall|k: int| 0 <= k < i ==> is_code_letter(#[trigger] code@[k]),
            i == 0 ==> key == 0,
            i == 1 ==> key == letter_number(code@[0]),
            i == 2 ==> key == letter_number(code@[0]) * 26 + letter_number(code@[1]),
            i == 3 ==> key == (letter_number(code@[0]) * 26 + letter_number(code@[1])) * 26
                + letter_number(code@[2]),
            i == 4 ==> key == code_number(code@),
            key < 26 * 26 * 26 * 26,
            i < 4 ==> key < 26 * 26 * 26,
        decreases chars.len() - i,
    {
        let c = chars[i];
        if !('a' <= c && c <= 'z') {
            assert(!is_code_letter(code@[i as int]));
            return None;
        }
        key = key * 26 + (c as u32 - 'a' as u32);
        i += 1;
    }
    Some(key)
}

/// `random_string::generate`: a string of `length` characters, each drawn
/// at random from `charset`. The crate panics on an empty charset.
#[verifier::external_body]
pub(crate) fn generate(length: usize, charset: &str) -> (r: String)
    requires
        charset@.len() > 0,
    ensures
        r@.len() == length,
        forall|i: int| 0 <= i < r@.len() ==> charset@.contains(#[trigger] r@[i]),
{
    random_string::generate(length, charset)
}

/// A random text of the form of a room code.
pub fn random_room_code() -> (code: String)
    ensures
        is_room_code(code@),
{
    proof {
        reveal_strlit("abcdefghijklmnopqrstuvwxyz");
    }
    let code = generate(ROOM_CODE_LENGTH, "abcdefghijklmnopqrstuvwxyz");
    proof {
        let letters = "abcdefghijklmnopqrstuvwxyz"@;
        assert forall|i: int| 0 <= i < code@.len() implies is_code_letter(#[trigger] code@[i]) by {
            assert(letters.contains(code@[i]));
            let k = choose|k: int| 0 <= k < letters.len() && letters[k] == code@[i];
            assert(letters.len() == 26);
        }
    }
    code
}

/// The registry. Rooms are never removed, so the place of a room in the
/// registry serves as a handle on it. A room is found by its code through
/// a map from the number of the code to the handle.
pub struct ServerState {
    rooms: Vec<RoomState>,
    /// The handle of every room, under the number of its code.
    by_code: HashMap<u32, usize>,
}

impl View for ServerState {
    type V = Seq<RoomView>;

    closed spec fn view(&self) -> Seq<RoomView> {
        self.rooms@.map_values(|r: RoomState| r@)
    }
}

/// Whether one of `rooms` has the code `code`.
pub open spec fn has_code(rooms: Seq<RoomView>, code: Seq<char>) -> bool {
    exists|i: int| 0 <= i < rooms.len() && (#[trigger] rooms[i]).code == code
}

/// What holds of the rooms of every registry: each room is consistent and
/// has a code of the proper form, and no two rooms share a code.
pub open spec fn rooms_inv(rooms: Seq<RoomView>) -> bool {
    &&& forall|i: int| 0 <= i < rooms.len() ==> (#[trigger] rooms[i]).inv()
    &&& forall|i: int| 0 <= i < rooms.len() ==> is_room_code((#[trigger] rooms[i]).code)
    &&& forall|i: int, j: int|
        0 <= i < j < rooms.len() ==> (#[trigger] rooms[i]).code != (#[trigger] rooms[j]).code
}

/// Whether `action` on the room behind `handle` can lead from the rooms
/// `before` to the rooms `after` with the event `event` to publish: the
/// room takes the step (see `RoomView::step`) and no other room changes.
/// With a handle that stands for no room nothing happens.
pub open spec fn applied(
    before: Seq<RoomView>,
    handle: usize,
    action: RoomAction,
    after: Seq<RoomView>,
    event: Option<BroadcastMsg>,
) -> bool {
    if handle < before.len() {
        &&& after.len() == before.len()
        &&& before[handle as int].step(action, after[handle as int], event)
        &&& after == before.update(handle as int, after[handle as int])
    } else {
        event.is_none() && after == before
    }
}

/// Whether `after` is `before` with one more room, made from `code` and
/// `list`, behind `handle`.
pub open spec fn created(
    before: Seq<RoomView>,
    code: Seq<char>,
    list: Seq<char>,
    after: Seq<RoomView>,
    handle: usize,
) -> bool {
    &&& is_room_code(code)
    &&& !has_code(before, code)
    &&& handle == before.len()
    &&& after.len() == handle + 1
    &&& after.take(handle as int) == before
    &&& after[handle as int].is_new(code, list)
}

/// Whether a search for a free code among the candidates `draws` ends with
/// `found`: the first of them that no room has, if it is among the first
/// `MAX_ROOM_CODE_ATTEMPTS`, and nothing if each of those is taken.
pub open spec fn code_search(
    rooms: Seq<RoomView>,
    draws: Seq<Seq<char>>,
    found: Option<Seq<char>>,
) -> bool {
    match found {
        Some(code) => exists|k: int|
            0 <= k < draws.len() && k < MAX_ROOM_CODE_ATTEMPTS && code == #[trigger] draws[k]
                && !has_code(rooms, code) && forall|j: int|
                0 <= j < k ==> has_code(rooms, #[trigger] draws[j]),
        None => forall|k: int|
            0 <= k < draws.len() && k < MAX_ROOM_CODE_ATTEMPTS ==> has_code(
                rooms,
                #[trigger] draws[k],
            ),
    }
}

/// Whether `draws` can be the codes drawn for one search: as many as there
/// are attempts, each of the form of a room code.
pub open spec fn room_code_draws(draws: Seq<Seq<char>>) -> bool {
    &&& draws.len() == MAX_ROOM_CODE_ATTEMPTS
    &&& forall|k: int| 0 <= k < draws.len() ==> is_room_code(#[trigger] draws[k])
}

/// What a search came to, as contracts see it.
pub open spec fn found_code(r: Result<String, ()>) -> Option<Seq<char>> {
    match r {
        Ok(code) => Some(code@),
        Err(_) => None,
    }
}

/// The code under which a room was created, if one was.
pub open spec fn created_code(r: Result<(String, usize), ()>) -> Option<Seq<char>> {
    match r {
        Ok((code, _)) => Some(code@),
        Err(_) => None,
    }
}

/// What is reported where no room has the code `code`.
pub open spec fn not_found_message(code: Seq<char>) -> Seq<char> {
    "Room \""@ + code + "\" not found"@
}

/// The page on which a participant joins a room in the stage `stage`.
pub open spec fn voting_page(stage: VotingStage, room_code: Seq<char>, room: usize) -> PageView {
    match stage {
        VotingStage::Vetoing => PageView::Veto { room_code, room },
        VotingStage::Ranking => PageView::Ranking { room_code, room },
    }
}

impl Default for ServerState {
    /// A registry without rooms.
    fn default() -> (state: ServerState)
        ensures
            state.wf(),
            state@.len() == 0,
    {
        ServerState::new()
    }
}

impl ServerState {
    /// Every room stores its options properly.
    pub closed spec fn keyed(&self) -> bool {
        &&& forall|i: int| 0 <= i < self.rooms@.len() ==> (#[trigger] self.rooms@[i]).keyed()
        &&& forall|i: int|
            0 <= i < self.rooms@.len() ==> self.by_code@.contains_key(
                code_number((#[trigger] self.rooms@[i])@.code) as u32,
            ) && self.by_code@[code_number(self.rooms@[i]@.code) as u32] == i
        &&& forall|n: u32| #[trigger]
            self.by_code@.contains_key(n) ==> self.by_code@[n] < self.rooms@.len() && code_number(
                self.rooms@[self.by_code@[n] as int]@.code,
            ) == n
    }

    /// The registry is consistent: see `rooms_inv`.
    pub open spec fn wf(&self) -> bool {
        self.keyed() && rooms_inv(self@)
    }

    /// A registry without rooms.
    pub fn new() -> (state: ServerState)
        ensures
            state.wf(),
            state@.len() == 0,
    {
        broadcast use vstd::std_specs::hash::group_hash_axioms;

        ServerState { rooms: Vec::new(), by_code: HashMap::new() }
    }

    /// The number of rooms.
    pub fn room_count(&self) -> (n: usize)
        ensures
            n == self@.len(),
    {
        self.rooms.len()
    }

    /// The handle of the room with the code `room_code`, which is looked up
    /// in lower case.
    pub fn find(&self, room_code: &str) -> (handle: Option<usize>)
        requires
            self.wf(),
        ensures
            match handle {
                Some(i) => i < self@.len() && self@[i as int].code == ascii_lower(room_code@),
                None => !has_code(self@, ascii_lower(room_code@)),
            },
    {
        let code = to_ascii_lowercase(room_code);
        self.find_exact(&code)
    }

    /// The handle of the room whose code is exactly `code`.
    pub fn find_exact(&self, code: &String) -> (handle: Option<usize>)
        requires
            self.wf(),
        ensures
            match handle {
                Some(i) => i < self@.len() && self@[i as int].code == code@,
                None => !has_code(self@, code@),
            },
    {
        broadcast use vstd::std_specs::hash::group_hash_axioms;

        match code_key(code.as_str()) {
            Some(key) => {
                match self.by_code.get(&key) {
                    Some(place) => {
                        let handle = *place;
                        proof {
                            assert(is_room_code(self@[handle as int].code));
                            lemma_code_number_is_one_to_one(self@[handle as int].code, code@);
                        }
                        Some(handle)
                    },
                    None => {
                        proof {
                            if has_code(self@, code@) {
                                let i = choose|i: int|
                                    0 <= i < self@.len() && (#[trigger] self@[i]).code == code@;
                                assert(self.by_code@.contains_key(
                                    code_number(self.rooms@[i]@.code) as u32,
                                ));
                            }
                        }
                        None
                    },
                }
            },
            None => {
                proof {
                    if has_code(self@, code@) {
                        let i = choose|i: int|
                            0 <= i < self@.len() && (#[trigger] self@[i]).code == code@;
                        assert(is_room_code(self@[i].code));
                    }
                }
                None
            },
        }
    }

    /// The page on which a participant joins the room with the code
    /// `room_code`, which is looked up in lower case: the vetoing page or
    /// the ranking page, as the stage of the room has it. With the page comes
    /// the handle of the room, to subscribe to. Where there is no such room
    /// the result says so.
    pub fn get_room_voting_page(&self, room_code: &str) -> (r: Result<(Page, usize), String>)
        requires
            self.wf(),
        ensures
            match r {
                Ok((page, handle)) => handle < self@.len() && self@[handle as int].code
                    == ascii_lower(room_code@) && page@ == voting_page(
                    self@[handle as int].stage,
                    ascii_lower(room_code@),
                    handle,
                ),
                Err(reason) => !has_code(self@, ascii_lower(room_code@)) && reason@
                    == not_found_message(ascii_lower(room_code@)),
            },
    {
        let code = to_ascii_lowercase(room_code);
        match self.find_exact(&code) {
            Some(handle) => {
                let page = match self.rooms[handle].voting_stage() {
                    VotingStage::Vetoing => Page::Veto(VetoPage::new(code, handle)),
                    VotingStage::Ranking => Page::Ranking(RankingPage::new(code, handle)),
                };
                Ok((page, handle))
            },
            None => Err(Self::not_found(code.as_str())),
        }
    }

    /// The results page of the room with the code `room_code`, which is
    /// looked up in lower case, with the handle of the room, to subscribe to.
    pub fn get_room_results_page(&self, room_code: &str) -> (r: Result<(Page, usize), String>)
        requires
            self.wf(),
        ensures
            match r {
                Ok((page, handle)) => handle < self@.len() && self@[handle as int].code
                    == ascii_lower(room_code@) && page@ == (PageView::Results {
                    room_code: ascii_lower(room_code@),
                    room: handle,
                }),
                Err(reason) => !has_code(self@, ascii_lower(room_code@)) && reason@
                    == not_found_message(ascii_lower(room_code@)),
            },
    {
        let code = to_ascii_lowercase(room_code);
        match self.find_exact(&code) {
            Some(handle) => Ok((Page::Results(ResultsPage { room_code: code, room: handle }), handle)),
            None => Err(Self::not_found(code.as_str())),
        }
    }

    /// What is reported where no room has the code `code`.
    fn not_found(code: &str) -> (reason: String)
        ensures
            reason@ == not_found_message(code@),
    {
        String::from_str("Room \"").concat(code).concat("\" not found")
    }

    /// Whether `code` has the form of a room code.
    pub fn check_room_code(code: &str) -> (valid: bool)
        ensures
            valid == is_room_code(code@),
    {
        code_key(code).is_some()
    }

    /// The first of the candidates that no room has as its code. There is
    /// no such code if each of the first `MAX_ROOM_CODE_ATTEMPTS`
    /// candidates is taken.
    pub fn first_free_code(&self, candidates: &Vec<String>) -> (r: Result<String, ()>)
        requires
            self.wf(),
        ensures
            code_search(self@, candidates.deep_view(), found_code(r)),
    {
        let ghost draws = candidates.deep_view();
        let mut attempts: usize = 0;
        while attempts < candidates.len() && attempts < MAX_ROOM_CODE_ATTEMPTS
            invariant
                self.wf(),
                draws == candidates.deep_view(),
                attempts <= candidates@.len(),
                attempts <= MAX_ROOM_CODE_ATTEMPTS,
                forall|j: int| 0 <= j < attempts ==> has_code(self@, #[trigger] draws[j]),
            decreases candidates.len() - attempts,
        {
            assert(draws[attempts as int] == candidates@[attempts as int]@);
            if !self.is_taken(&candidates[attempts]) {
                let code = candidates[attempts].clone();
                assert(code@ == draws[attempts as int]);
                return Ok(code);
            }
            attempts += 1;
        }
        Err(())
    }

    /// Whether a room has exactly this code.
    pub fn is_taken(&self, code: &String) -> (taken: bool)
        requires
            self.wf(),
        ensures
            taken == has_code(self@, code@),
    {
        match self.find_exact(code) {
            Some(handle) => {
                assert(self@[handle as int].code == code@);
                true
            },
            None => false,
        }
    }

    /// A code of the proper form that no room has yet. As many codes as
    /// there are attempts are drawn at random, and the first of them that no
    /// room has is the result; the search fails if every one of them is
    /// taken. So it cannot fail where no room has a code of the proper form,
    /// as in an empty registry.
    pub fn get_valid_room_code(&self) -> (r: Result<String, ()>)
        requires
            self.wf(),
        ensures
            exists|draws: Seq<Seq<char>>|
                room_code_draws(draws) && #[trigger] code_search(self@, draws, found_code(r)),
            r matches Ok(code) ==> is_room_code(code@) && !has_code(self@, code@),
            r is Err ==> exists|code: Seq<char>|
                is_room_code(code) && #[trigger] has_code(self@, code),
            self@.len() == 0 ==> r is Ok,
    {
        let mut codes: Vec<String> = Vec::new();
        while codes.len() < MAX_ROOM_CODE_ATTEMPTS
            invariant
                codes@.len() <= MAX_ROOM_CODE_ATTEMPTS,
                forall|k: int| 0 <= k < codes@.len() ==> is_room_code((#[trigger] codes@[k])@),
            decreases MAX_ROOM_CODE_ATTEMPTS - codes.len(),
        {
            codes.push(random_room_code());
        }
        let r = self.first_free_code(&codes);
        proof {
            let draws = codes.deep_view();
            assert forall|k: int| 0 <= k < draws.len() implies is_room_code(#[trigger] draws[k]) by {
                assert(draws[k] == codes@[k]@);
            }
            assert(room_code_draws(draws));
            assert(code_search(self@, draws, found_code(r)));
            if r is Err {
                assert(has_code(self@, draws[0]));
            }
        }
        r
    }

    /// Adds a room under the given code, unless the code has not the proper
    /// form or is taken. The result is the handle of the new room.
    pub fn create_room_with_code(&mut self, room_code: String, original_input_text: String) -> (r:
        Result<usize, ()>)
        requires
            old(self).wf(),
        ensures
            final(self).wf(),
            match r {
                Ok(handle) => created(
                    old(self)@,
                    room_code@,
                    original_input_text@,
                    final(self)@,
                    handle,
                ),
                Err(_) => {
                    &&& !is_room_code(room_code@) || has_code(old(self)@, room_code@)
                    &&& final(self)@ == old(self)@
                },
            },
    {
        broadcast use vstd::std_specs::hash::group_hash_axioms;

        let key = match code_key(room_code.as_str()) {
            Some(key) => key,
            None => {
                return Err(());
            },
        };
        if self.is_taken(&room_code) {
            return Err(());
        }
        let handle = self.rooms.len();
        let room = RoomState::new(room_code, original_input_text);
        let ghost before = self@;
        let ghost rooms_before = self.rooms@;
        let ghost index_before = self.by_code@;
        self.rooms.push(room);
        self.by_code.insert(key, handle);
        proof {
            assert(self.rooms@ == rooms_before.push(room));
            assert forall|i: int| 0 <= i < self.rooms@.len() implies self.by_code@.contains_key(
                code_number((#[trigger] self.rooms@[i])@.code) as u32,
            ) && self.by_code@[code_number(self.rooms@[i]@.code) as u32] == i by {
                if i < handle {
                    assert(self.rooms@[i] == rooms_before[i]);
                    assert(before[i] == rooms_before[i]@);
                    assert(is_room_code(before[i].code));
                    assert(before[i].code != room_code@);
                    if code_number(before[i].code) == key {
                        lemma_code_number_is_one_to_one(before[i].code, room_code@);
                    }
                    assert(index_before.contains_key(code_number(rooms_before[i]@.code) as u32));
                }
            }
            assert forall|n: u32| #[trigger] self.by_code@.contains_key(n) implies self.by_code@[n]
                < self.rooms@.len() && code_number(self.rooms@[self.by_code@[n] as int]@.code)
                == n by {
                if n != key {
                    assert(index_before.contains_key(n));
                    assert(self.rooms@[index_before[n] as int] == rooms_before[index_before[n] as int]);
                }
            }
            assert(self@ =~= before.push(room@));
            assert(self@.take(handle as int) =~= before);
            assert forall|i: int, j: int| 0 <= i < j < self@.len() implies (#[trigger] self@[i]).code
                != (#[trigger] self@[j]).code by {
                if j == handle {
                    assert(before[i].code != room_code@);
                } else {
                    assert(before[i].code != before[j].code);
                }
            }
            assert forall|i: int| 0 <= i < self.rooms@.len() implies (
            #[trigger] self.rooms@[i]).keyed() by {
                if i < handle {
                    assert(rooms_before[i].keyed());
                }
            }
        }
        Ok(handle)
    }

    /// Adds a room under a fresh random code: the first of the codes drawn
    /// for the search (see `get_valid_room_code`) that no room has. The
    /// result is the code and the handle of the new room. Creation fails,
    /// and nothing changes, if every code drawn is taken; so in a registry
    /// where no room has a code of the proper form, as in an empty one, the
    /// room is created.
    pub fn create_room(&mut self, original_input_text: String) -> (r: Result<(String, usize), ()>)
        requires
            old(self).wf(),
        ensures
            final(self).wf(),
            match r {
                Ok((code, handle)) => created(
                    old(self)@,
                    code@,
                    original_input_text@,
                    final(self)@,
                    handle,
                ),
                Err(_) => {
                    &&& final(self)@ == old(self)@
                    &&& exists|code: Seq<char>|
                        is_room_code(code) && #[trigger] has_code(old(self)@, code)
                },
            },
            exists|draws: Seq<Seq<char>>|
                room_code_draws(draws) && #[trigger] code_search(
                    old(self)@,
                    draws,
                    created_code(r),
                ),
            old(self)@.len() == 0 ==> r is Ok,
    {
        match self.get_valid_room_code() {
            Ok(code) => {
                match self.create_room_with_code(code.clone(), original_input_text) {
                    Ok(handle) => Ok((code, handle)),
                    Err(e) => Err(e),
                }
            },
            Err(e) => Err(e),
        }
    }

    /// Carries out `action` on the room behind `handle`. The result is the
    /// event to publish to the subscribers of that room, if it changed.
    /// With a handle that stands for no room nothing happens.
    pub fn apply(&mut self, handle: usize, action: RoomAction) -> (event: Option<BroadcastMsg>)
        requires
            old(self).wf(),
        ensures
            final(self).wf(),
            applied(old(self)@, handle, action, final(self)@, event),
    {
        if handle >= self.rooms.len() {
            return None;
        }
        let ghost before = self@;
        let ghost rooms_before = self.rooms@;
        proof {
            assert(self.rooms@[handle as int].keyed());
            assert(before[handle as int].inv());
        }
        let event = self.rooms[handle].apply(action);
        proof {
            assert(self.rooms@ == rooms_before.update(handle as int, self.rooms@[handle as int]));
            assert(self@ =~= before.update(handle as int, self@[handle as int]));
            assert forall|i: int| 0 <= i < self.rooms@.len() implies (
            #[trigger] self.rooms@[i]).keyed() by {
                if i != handle {
                    assert(rooms_before[i].keyed());
                }
            }
            assert forall|i: int| 0 <= i < self@.len() implies (#[trigger] self@[i]).inv()
                && is_room_code(self@[i].code) by {
                assert(before[i].inv());
                assert(is_room_code(before[i].code));
            }
            assert forall|i: int, j: int| 0 <= i < j < self@.len() implies (#[trigger] self@[i]).code
                != (#[trigger] self@[j]).code by {
                assert(before[i].code != before[j].code);
            }
        }
        event
    }

    /// The room behind a handle.
    pub fn room(&self, handle: usize) -> (room: Option<&RoomState>)
        requires
            self.wf(),
        ensures
            match room {
                Some(r) => handle < self@.len() && r@ == self@[handle as int] && r.wf(),
                None => handle >= self@.len(),
            },
    {
        if handle < self.rooms.len() {
            Some(&self.rooms[handle])
        } else {
            None
        }
    }
}

} // verus!
