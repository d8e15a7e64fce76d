//! The directory of rooms: the one place where rooms are created and found.

use vstd::prelude::*;
use crate::chat_room::{
    room_joined, room_left, room_recorded, ChatRoom, ChatRoomMetadata, MetadataView, RoomView,
};
use crate::event::Event;
use crate::identity::{IdentityView, SessionAndUserId};
use crate::text::str_equal;
use crate::user_registry::present_users;
use crate::user_session_handle::{HandleView, UserSessionHandle};

verus! {

/// Why the directory could not serve a request.
#[derive(Debug, Clone, Copy, PartialEq, Eq, Structural)]
pub enum RoomError {
    /// The name is unknown and the directory does not create rooms on demand.
    RoomNotFound,
    /// The room a handle belongs to is not in the directory.
    InvalidHandle,
}

/// Mathematical value of a [`RoomManager`].
pub struct DirectoryView {
    /// The rooms, in the order in which they were created.
    pub rooms: Seq<RoomView>,
    /// Whether a room is created when an unknown name is first referred to.
    pub creates_rooms: bool,
}

/// Whether the room at position `i` of `rooms` is called `name`.
pub open spec fn room_at(rooms: Seq<RoomView>, name: Seq<char>, i: int) -> bool {
    0 <= i < rooms.len() && rooms[i].name == name
}

/// Whether one of `rooms` is called `name`.
pub open spec fn has_room(rooms: Seq<RoomView>, name: Seq<char>) -> bool {
    exists|i: int| room_at(rooms, name, i)
}

/// Position of the room called `name`, where there is one.
pub open spec fn room_index(rooms: Seq<RoomView>, name: Seq<char>) -> int {
    choose|i: int| room_at(rooms, name, i)
}

/// No two of `rooms` share a name.
pub open spec fn distinct_names(rooms: Seq<RoomView>) -> bool {
    forall|i: int, j: int|
        0 <= i < j < rooms.len() ==> (#[trigger] rooms[i]).name != (#[trigger] rooms[j]).name
}

/// The room that `metadata` describes, before anything has happened in it.
pub open spec fn empty_room(metadata: MetadataView) -> RoomView {
    RoomView {
        name: metadata.name,
        description: metadata.description,
        members: Set::empty(),
        history: Seq::empty(),
        announced: Seq::empty(),
    }
}

/// The rooms that a list of metadata configures: one per name, described by
/// the first entry of that name, in the order of the list.
pub open spec fn configured_rooms(metadata: Seq<MetadataView>) -> Seq<RoomView>
    decreases metadata.len(),
{
    if metadata.len() == 0 {
        Seq::empty()
    } else {
        let before = configured_rooms(metadata.drop_last());
        if has_room(before, metadata.last().name) {
            before
        } else {
            before.push(empty_room(metadata.last()))
        }
    }
}

/// Whether a reference to `name` finds a room, be it an existing or a new one.
pub open spec fn resolves(directory: DirectoryView, name: Seq<char>) -> bool {
    has_room(directory.rooms, name) || directory.creates_rooms
}

/// `directory` after a reference to `name`: a room without description is
/// added where the name is unknown and rooms are created on demand.
pub open spec fn directory_referred(directory: DirectoryView, name: Seq<char>) -> DirectoryView {
    if has_room(directory.rooms, name) || !directory.creates_rooms {
        directory
    } else {
        DirectoryView {
            rooms: directory.rooms.push(
                empty_room(MetadataView { name, description: Seq::empty() }),
            ),
            ..directory
        }
    }
}

/// `directory` with the room called `name` replaced by `room`.
pub open spec fn directory_with(directory: DirectoryView, name: Seq<char>, room: RoomView) -> DirectoryView {
    DirectoryView {
        rooms: directory.rooms.update(room_index(directory.rooms, name), room),
        ..directory
    }
}

/// `directory` after the connection `id` has joined the room called `name`.
pub open spec fn directory_joined(
    directory: DirectoryView,
    name: Seq<char>,
    id: IdentityView,
) -> DirectoryView {
    let referred = directory_referred(directory, name);
    directory_with(
        referred,
        name,
        room_joined(referred.rooms[room_index(referred.rooms, name)], id),
    )
}

/// `directory` after the holder of `handle` has had `content` recorded in the
/// handle's room; unchanged where that room is not in the directory.
pub open spec fn directory_recorded(
    directory: DirectoryView,
    handle: HandleView,
    content: Seq<char>,
) -> DirectoryView {
    if has_room(directory.rooms, handle.room) {
        directory_with(
            directory,
            handle.room,
            room_recorded(
                directory.rooms[room_index(directory.rooms, handle.room)],
                handle.identity.user_id,
                content,
            ),
        )
    } else {
        directory
    }
}

/// `directory` after `handle` has been handed back to its room; unchanged
/// where that room is not in the directory.
pub open spec fn directory_left(directory: DirectoryView, handle: HandleView) -> DirectoryView {
    if has_room(directory.rooms, handle.room) {
        directory_with(
            directory,
            handle.room,
            room_left(directory.rooms[room_index(directory.rooms, handle.room)], handle.identity),
        )
    } else {
        directory
    }
}

/// The rooms of the hub, by name.
pub struct RoomManager {
    chat_rooms: Vec<ChatRoom>,
    creates_rooms: bool,
}

impl View for RoomManager {
    type V = DirectoryView;

    closed spec fn view(&self) -> DirectoryView {
        DirectoryView {
            rooms: Seq::new(self.chat_rooms@.len(), |i: int| self.chat_rooms@[i]@),
            creates_rooms: self.creates_rooms,
        }
    }
}

/// In a list without repeated names, a room is found at one position only.
pub proof fn lemma_room_index(rooms: Seq<RoomView>, name: Seq<char>, i: int)
    requires
        distinct_names(rooms),
        room_at(rooms, name, i),
    ensures
        has_room(rooms, name),
        room_index(rooms, name) == i,
{
    let j = room_index(rooms, name);
    assert(room_at(rooms, name, j));
    if i < j {
        assert(rooms[i].name != rooms[j].name);
    }
    if j < i {
        assert(rooms[j].name != rooms[i].name);
    }
}

/// Referring to a name a second time finds the room of the first time and
/// changes nothing: the directory never holds two rooms of one name.
pub proof fn lemma_same_room_twice(directory: DirectoryView, name: Seq<char>)
    requires
        distinct_names(directory.rooms),
    ensures
        distinct_names(directory_referred(directory, name).rooms),
        directory_referred(directory_referred(directory, name), name) == directory_referred(
            directory,
            name,
        ),
        resolves(directory, name) ==> has_room(directory_referred(directory, name).rooms, name),
        forall|i: int, j: int|
            room_at(directory_referred(directory, name).rooms, name, i) && room_at(
                directory_referred(directory, name).rooms,
                name,
                j,
            ) ==> i == j,
{
    let once = directory_referred(directory, name);
    if !has_room(directory.rooms, name) && directory.creates_rooms {
        let n = directory.rooms.len() as int;
        assert(room_at(once.rooms, name, n));
        assert forall|i: int, j: int| 0 <= i < j < once.rooms.len() implies (
        #[trigger] once.rooms[i]).name != (#[trigger] once.rooms[j]).name by {
            if j == n {
                assert(!room_at(directory.rooms, name, i));
            } else {
                assert(directory.rooms[i].name != directory.rooms[j].name);
            }
        }
    }
    assert forall|i: int, j: int| room_at(once.rooms, name, i) && room_at(
        once.rooms,
        name,
        j,
    ) implies i == j by {
        lemma_room_index(once.rooms, name, i);
        lemma_room_index(once.rooms, name, j);
    }
}

impl RoomManager {
    /// Every room is well-formed and no two rooms share a name.
    pub closed spec fn wf(&self) -> bool {
        &&& forall|i: int| 0 <= i < self.chat_rooms.len() ==> (#[trigger] self.chat_rooms[i]).wf()
        &&& distinct_names(self@.rooms)
    }

    /// A well-formed directory holds one room per name.
    pub proof fn lemma_distinct_names(&self)
        requires
            self.wf(),
        ensures
            distinct_names(self@.rooms),
    {
    }

    /// Position of the room called `name`, if there is one.
    pub fn find(&self, name: &str) -> (found: Option<usize>)
        ensures
            found matches Some(i) ==> room_at(self@.rooms, name@, i as int),
            found is None ==> !has_room(self@.rooms, name@),
    {
        let mut i: usize = 0;
        while i < self.chat_rooms.len()
            invariant
                i <= self.chat_rooms.len(),
                forall|j: int| 0 <= j < i ==> !room_at(self@.rooms, name@, j),
            decreases self.chat_rooms.len() - i,
        {
            if str_equal(self.chat_rooms[i].metadata().name.as_str(), name) {
                return Some(i);
            }
            i += 1;
        }
        None
    }

    /// A directory with one empty room per configured name. Of several entries
    /// with one name the first counts. `creates_rooms` decides whether a later
    /// reference to an unknown name creates a room or is refused.
    pub fn new(configured: Vec<ChatRoomMetadata>, creates_rooms: bool) -> (directory: Self)
        ensures
            directory.wf(),
            directory@.creates_rooms == creates_rooms,
            directory@.rooms == configured_rooms(configured.deep_view()),
    {
        let mut directory = RoomManager { chat_rooms: Vec::new(), creates_rooms };
        let ghost metadata = configured.deep_view();
        let mut k: usize = 0;
        assert(metadata.subrange(0, 0) =~= Seq::empty());
        assert(directory@.rooms =~= Seq::empty());
        while k < configured.len()
            invariant
                k <= configured.len(),
                metadata == configured.deep_view(),
                directory.wf(),
                directory.creates_rooms == creates_rooms,
                directory@.rooms == configured_rooms(metadata.subrange(0, k as int)),
            decreases configured.len() - k,
        {
            let ghost before = directory@.rooms;
            let ghost prefix = metadata.subrange(0, k as int + 1);
            assert(prefix.drop_last() =~= metadata.subrange(0, k as int));
            assert(prefix.last() == configured[k as int]@);
            if directory.find(configured[k].name.as_str()).is_none() {
                directory.chat_rooms.push(ChatRoom::new(configured[k].clone()));
                assert(directory@.rooms =~= before.push(empty_room(configured[k as int]@)));
                assert forall|i: int, j: int|
                    0 <= i < j < directory@.rooms.len() implies (#[trigger] directory@.rooms[i]).name
                    != (#[trigger] directory@.rooms[j]).name by {
                    if j == before.len() {
                        assert(!room_at(before, configured[k as int]@.name, i));
                    } else {
                        assert(before[i].name != before[j].name);
                    }
                }
            }
            k += 1;
        }
        assert(metadata.subrange(0, k as int) =~= metadata);
        directory
    }

    /// How many rooms there are.
    pub fn len(&self) -> (n: usize)
        ensures
            n == self@.rooms.len(),
    {
        self.chat_rooms.len()
    }

    /// The room at position `index`, if there is one.
    pub fn room(&self, index: usize) -> (room: Option<&ChatRoom>)
        ensures
            room is Some <==> index < self@.rooms.len(),
            room matches Some(r) ==> r@ == self@.rooms[index as int] && (self.wf() ==> r.wf()),
    {
        if index < self.chat_rooms.len() {
            Some(&self.chat_rooms[index])
        } else {
            None
        }
    }

    /// Position of the room called `name`. An unknown name gets a new, empty
    /// room without description where the directory creates rooms on demand,
    /// and is refused where it does not. Asking again for the same name gives
    /// the same position and changes nothing.
    pub fn get_or_create(&mut self, name: &str) -> (found: Result<usize, RoomError>)
        requires
            old(self).wf(),
        ensures
            final(self).wf(),
            final(self)@ == directory_referred(old(self)@, name@),
            found is Ok <==> resolves(old(self)@, name@),
            found matches Ok(i) ==> room_at(final(self)@.rooms, name@, i as int),
            found matches Err(e) ==> e == RoomError::RoomNotFound,
    {
        if let Some(i) = self.find(name) {
            return Ok(i);
        }
        if !self.creates_rooms {
            return Err(RoomError::RoomNotFound);
        }
        let metadata = ChatRoomMetadata { name: name.to_owned(), description: String::new() };
        let ghost before = self@.rooms;
        self.chat_rooms.push(ChatRoom::new(metadata));
        proof {
            assert(self@.rooms =~= before.push(
                empty_room(MetadataView { name: name@, description: Seq::empty() }),
            ));
            assert forall|i: int, j: int| 0 <= i < j < self@.rooms.len() implies (
            #[trigger] self@.rooms[i]).name != (#[trigger] self@.rooms[j]).name by {
                if j == before.len() {
                    assert(!room_at(before, name@, i));
                } else {
                    assert(before[i].name != before[j].name);
                }
            }
        }
        Ok(self.chat_rooms.len() - 1)
    }
    /// Replacing a room by one of the same name keeps the names apart.
    proof fn lemma_update_keeps_names(rooms: Seq<RoomView>, i: int, room: RoomView)
        requires
            distinct_names(rooms),
            0 <= i < rooms.len(),
            room.name == rooms[i].name,
        ensures
            distinct_names(rooms.update(i, room)),
    {
        let updated = rooms.update(i, room);
        assert forall|a: int, b: int| 0 <= a < b < updated.len() implies (#[trigger] updated[a]).name
            != (#[trigger] updated[b]).name by {
            assert(rooms[a].name != rooms[b].name);
        }
    }

    /// Lets the connection `session_and_user_id` into the room called
    /// `room_name`, which is created first where the directory does that.
    /// Returns the new subscription, the membership handle and the distinct
    /// users present right after the join.
    pub fn join_room(&mut self, room_name: &str, session_and_user_id: &SessionAndUserId) -> (joined:
        Result<(tokio::sync::broadcast::Receiver<Event>, UserSessionHandle, Vec<String>), RoomError>)
        requires
            old(self).wf(),
        ensures
            final(self).wf(),
            joined is Ok <==> resolves(old(self)@, room_name@),
            joined is Ok ==> final(self)@ == directory_joined(
                old(self)@,
                room_name@,
                session_and_user_id@,
            ),
            joined is Err ==> final(self)@ == old(self)@,
            joined matches Ok(parts) ==> {
                &&& parts.1@ == (HandleView {
                    room: room_name@,
                    identity: session_and_user_id@,
                    sent: Seq::empty(),
                })
                &&& parts.2.deep_view().no_duplicates()
                &&& parts.2.deep_view().to_set() == present_users(
                    final(self)@.rooms[room_index(final(self)@.rooms, room_name@)].members,
                )
            },
            joined matches Err(e) ==> e == RoomError::RoomNotFound,
    {
        let at = match self.get_or_create(room_name) {
            Ok(at) => at,
            Err(e) => {
                return Err(e);
            },
        };
        let ghost referred = self@;
        proof {
            lemma_room_index(referred.rooms, room_name@, at as int);
        }
        let (subscription, user_session_handle) = self.chat_rooms[at].join(session_and_user_id);
        let user_ids = self.chat_rooms[at].get_unique_user_ids();
        proof {
            let room = room_joined(referred.rooms[at as int], session_and_user_id@);
            assert(self@.rooms =~= referred.rooms.update(at as int, room));
            Self::lemma_update_keeps_names(referred.rooms, at as int, room);
            lemma_room_index(self@.rooms, room_name@, at as int);
        }
        Ok((subscription, user_session_handle, user_ids))
    }

    /// Records `content`, written by the holder of `user_session_handle`, in
    /// the history of the handle's room. Nothing is published.
    pub fn add_room_history(&mut self, user_session_handle: &UserSessionHandle, content: String) -> (recorded:
        Result<(), RoomError>)
        requires
            old(self).wf(),
        ensures
            final(self).wf(),
            final(self)@ == directory_recorded(old(self)@, user_session_handle@, content@),
            recorded is Ok <==> has_room(old(self)@.rooms, user_session_handle@.room),
            recorded matches Err(e) ==> e == RoomError::InvalidHandle,
    {
        let at = match self.find(user_session_handle.room()) {
            Some(at) => at,
            None => {
                return Err(RoomError::InvalidHandle);
            },
        };
        let ghost before = self@;
        proof {
            lemma_room_index(before.rooms, user_session_handle@.room, at as int);
        }
        let user_id = user_session_handle.identity().user_id.clone();
        self.chat_rooms[at].add_message_to_history(user_id, content);
        proof {
            let room = room_recorded(
                before.rooms[at as int],
                user_session_handle@.identity.user_id,
                content@,
            );
            assert(self@.rooms =~= before.rooms.update(at as int, room));
            Self::lemma_update_keeps_names(before.rooms, at as int, room);
        }
        Ok(())
    }

    /// The history of the handle's room as `(user id, content)`, oldest first.
    pub fn get_room_history(&self, user_session_handle: &UserSessionHandle) -> (history: Result<
        Vec<(String, String)>,
        RoomError,
    >)
        requires
            self.wf(),
        ensures
            history is Ok <==> has_room(self@.rooms, user_session_handle@.room),
            history matches Ok(h) ==> h.deep_view() == self@.rooms[room_index(
                self@.rooms,
                user_session_handle@.room,
            )].history,
            history matches Err(e) ==> e == RoomError::InvalidHandle,
    {
        match self.find(user_session_handle.room()) {
            Some(at) => {
                proof {
                    lemma_room_index(self@.rooms, user_session_handle@.room, at as int);
                }
                Ok(self.chat_rooms[at].get_message_history())
            },
            None => Err(RoomError::InvalidHandle),
        }
    }

    /// Hands `user_session_handle` back to its room, which ends the
    /// membership. The handle is gone afterwards, also where its room is not
    /// in the directory.
    pub fn drop_user_session_handle(&mut self, user_session_handle: UserSessionHandle) -> (dropped:
        Result<(), RoomError>)
        requires
            old(self).wf(),
        ensures
            final(self).wf(),
            final(self)@ == directory_left(old(self)@, user_session_handle@),
            dropped is Ok <==> has_room(old(self)@.rooms, user_session_handle@.room),
            dropped matches Err(e) ==> e == RoomError::InvalidHandle,
    {
        let at = match self.find(user_session_handle.room()) {
            Some(at) => at,
            None => {
                return Err(RoomError::InvalidHandle);
            },
        };
        let ghost before = self@;
        let ghost handle = user_session_handle@;
        proof {
            lemma_room_index(before.rooms, handle.room, at as int);
        }
        self.chat_rooms[at].leave(user_session_handle);
        proof {
            let room = room_left(before.rooms[at as int], handle.identity);
            assert(self@.rooms =~= before.rooms.update(at as int, room));
            Self::lemma_update_keeps_names(before.rooms, at as int, room);
        }
        Ok(())
    }
}

} // verus!
