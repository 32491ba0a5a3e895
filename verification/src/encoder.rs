//! The streamed JSON object.
//!
//! The output is one JSON object with a member for each archive: the key
//! tells the archive, the value is the text of its metadata. It is written
//! in chunks, one for each result as it arrives, so that nothing waits for a
//! slow archive but the closing brace. What has been written is never taken
//! back, and the members stand in the order in which they arrived.
//!
//! Keys and values are strings between quotes, with a backslash before each
//! quote and each backslash in them. Nothing else is escaped: a line break in
//! the text is a line break in the output.

use crate::fetch::MetadataResult;
use crate::trusted::{encode_json_string, json_string};
use vstd::prelude::*;

verus! {

/// The byte that opens the object.
pub const OBJECT_BEGIN: u8 = 0x7b;

/// The byte that closes the object.
pub const OBJECT_END: u8 = 0x7d;

/// The byte between two members.
pub const COMMA: u8 = 0x2c;

/// The byte between the key and the value of a member.
pub const COLON: u8 = 0x3a;

/// A member whose key and value are both encoded as JSON strings.
pub type EncodedMember = (Seq<u8>, Seq<u8>);

/// The key and the value of a member as JSON strings.
pub open spec fn encoded_member(key: Seq<char>, value: Seq<char>) -> EncodedMember {
    (json_string(key), json_string(value))
}

/// What stands before a member: nothing before the first, a comma before
/// every other.
pub open spec fn separator(first: bool) -> Seq<u8> {
    if first {
        Seq::empty()
    } else {
        seq![COMMA]
    }
}

/// A member in the object: key, colon, value.
pub open spec fn member_bytes(member: EncodedMember) -> Seq<u8> {
    member.0 + seq![COLON] + member.1
}

/// The members in the object, in their order, with commas between them.
pub open spec fn members_bytes(members: Seq<EncodedMember>) -> Seq<u8>
    decreases members.len(),
{
    if members.len() == 0 {
        Seq::empty()
    } else {
        members_bytes(members.drop_last()) + separator(members.len() == 1) + member_bytes(
            members.last(),
        )
    }
}

/// The object up to its last member: what is written before the end.
pub open spec fn open_object_bytes(members: Seq<EncodedMember>) -> Seq<u8> {
    seq![OBJECT_BEGIN] + members_bytes(members)
}

/// The whole object.
pub open spec fn object_bytes(members: Seq<EncodedMember>) -> Seq<u8> {
    open_object_bytes(members) + seq![OBJECT_END]
}

/// One more member is written behind what stands there already, after a
/// comma where it is not the first.
pub proof fn lemma_member_appended(members: Seq<EncodedMember>, member: EncodedMember)
    ensures
        open_object_bytes(members.push(member)) == open_object_bytes(members) + separator(
            members.len() == 0,
        ) + member_bytes(member),
{
    assert(members.push(member).drop_last() =~= members);
    assert(open_object_bytes(members.push(member)) =~= open_object_bytes(members) + separator(
        members.len() == 0,
    ) + member_bytes(member));
}

/// The chunk for one member: a comma unless the member is the first, the
/// key, a colon, the value. Key and value are JSON strings already.
pub fn frame_member(first: bool, key_json: Vec<u8>, value_json: Vec<u8>) -> (chunk: Vec<u8>)
    ensures
        chunk@ == separator(first) + member_bytes((key_json@, value_json@)),
{
    let ghost member = (key_json@, value_json@);
    let mut key_json = key_json;
    let mut value_json = value_json;
    let mut chunk: Vec<u8> = Vec::new();
    if !first {
        chunk.push(COMMA);
    }
    chunk.append(&mut key_json);
    chunk.push(COLON);
    chunk.append(&mut value_json);
    assert(chunk@ =~= separator(first) + member_bytes(member));
    chunk
}

/// Writes a JSON object member by member.
pub struct ObjectEncoder {
    first: bool,
    taken: Ghost<Seq<EncodedMember>>,
    written: Ghost<Seq<u8>>,
}

impl ObjectEncoder {
    /// The members written so far, in the order in which they came.
    pub closed spec fn members(&self) -> Seq<EncodedMember> {
        self.taken@
    }

    /// All bytes handed out so far.
    pub closed spec fn written(&self) -> Seq<u8> {
        self.written@
    }

    #[verifier::type_invariant]
    spec fn well_formed(&self) -> bool {
        &&& self.first == (self.taken@.len() == 0)
        &&& self.written@ == open_object_bytes(self.taken@)
    }

    /// Begins an object. The chunk is the opening brace.
    pub fn begin() -> (begun: (ObjectEncoder, Vec<u8>))
        ensures
            begun.0.members() == Seq::<EncodedMember>::empty(),
            begun.0.written() == begun.1@,
            begun.1@ == seq![OBJECT_BEGIN],
    {
        let mut chunk: Vec<u8> = Vec::new();
        chunk.push(OBJECT_BEGIN);
        let taken: Ghost<Seq<EncodedMember>> = Ghost(Seq::empty());
        let written: Ghost<Seq<u8>> = Ghost(open_object_bytes(Seq::empty()));
        let encoder = ObjectEncoder { first: true, taken, written };
        assert(chunk@ =~= seq![OBJECT_BEGIN]);
        assert(open_object_bytes(Seq::<EncodedMember>::empty()) =~= seq![OBJECT_BEGIN]);
        (encoder, chunk)
    }

    /// Writes one member. The chunk holds the member and the comma that
    /// parts it from the one before.
    pub fn member(&mut self, key: &str, value: &str) -> (chunk: Vec<u8>)
        ensures
            chunk@ == separator(old(self).members().len() == 0) + member_bytes(
                encoded_member(key@, value@),
            ),
            final(self).members() == old(self).members().push(encoded_member(key@, value@)),
            final(self).written() == old(self).written() + chunk@,
            final(self).written() == open_object_bytes(final(self).members()),
    {
        proof {
            use_type_invariant(&*self);
        }
        let key_json = encode_json_string(key).unwrap();
        let value_json = encode_json_string(value).unwrap();
        let ghost member = (key_json@, value_json@);
        let chunk = frame_member(self.first, key_json, value_json);
        proof {
            lemma_member_appended(self.taken@, member);
            assert(self.written@ + chunk@ =~= open_object_bytes(self.taken@.push(member)));
        }
        let taken: Ghost<Seq<EncodedMember>> = Ghost(self.taken@.push(member));
        let written: Ghost<Seq<u8>> = Ghost(self.written@ + chunk@);
        *self = ObjectEncoder { first: false, taken, written };
        chunk
    }

    /// Writes what a finished task has to show: its member where it has the
    /// text, nothing where it failed.
    pub fn result(&mut self, result: &MetadataResult) -> (chunk: Vec<u8>)
        ensures
            final(self).written() == old(self).written() + chunk@,
            final(self).written() == open_object_bytes(final(self).members()),
            match written_member(*result) {
                Some(member) => {
                    &&& chunk@ == separator(old(self).members().len() == 0) + member_bytes(member)
                    &&& final(self).members() == old(self).members().push(member)
                },
                None => {
                    &&& chunk@ == Seq::<u8>::empty()
                    &&& final(self).members() == old(self).members()
                },
            },
    {
        proof {
            use_type_invariant(&*self);
        }
        match &result.outcome {
            Ok(text) => {
                let key = result.url.output_key();
                self.member(key.as_str(), text.as_str())
            },
            Err(_) => {
                let chunk: Vec<u8> = Vec::new();
                assert(self.written() + chunk@ =~= self.written());
                chunk
            },
        }
    }

    /// Ends the object. The chunk is the closing brace, and with it the
    /// whole object has been written.
    pub fn end(self) -> (chunk: Vec<u8>)
        ensures
            chunk@ == seq![OBJECT_END],
            self.written() + chunk@ == object_bytes(self.members()),
    {
        proof {
            use_type_invariant(&self);
        }
        let mut chunk: Vec<u8> = Vec::new();
        chunk.push(OBJECT_END);
        assert(chunk@ =~= seq![OBJECT_END]);
        chunk
    }
}

/// The member of a finished task as it is written; `None` for a task that
/// failed.
pub open spec fn written_member(result: MetadataResult) -> Option<EncodedMember> {
    match result.member() {
        Some((key, value)) => Some(encoded_member(key, value)),
        None => None,
    }
}

/// The members that finished tasks add to the output, in the order in which
/// the tasks finished. Failed tasks add none.
pub open spec fn members_of(results: Seq<MetadataResult>) -> Seq<EncodedMember>
    decreases results.len(),
{
    if results.len() == 0 {
        Seq::empty()
    } else {
        let front = members_of(results.drop_last());
        match written_member(results.last()) {
            Some(member) => front.push(member),
            None => front,
        }
    }
}

/// The whole output for the results of all tasks, in the order in which the
/// tasks finished.
pub open spec fn output_of(results: Seq<MetadataResult>) -> Seq<u8> {
    object_bytes(members_of(results))
}

/// A failed task adds no member to the output: the output is what it is
/// without that task.
pub proof fn lemma_failure_adds_no_member(results: Seq<MetadataResult>, failed: MetadataResult)
    requires
        failed.outcome is Err,
    ensures
        members_of(results.push(failed)) == members_of(results),
        output_of(results.push(failed)) == output_of(results),
{
    assert(results.push(failed).drop_last() =~= results);
}

/// A task that finished with the text adds its member behind the members of
/// all tasks that finished before it.
pub proof fn lemma_success_adds_last_member(results: Seq<MetadataResult>, done: MetadataResult)
    requires
        done.outcome is Ok,
    ensures
        written_member(done) is Some,
        members_of(results.push(done)) == members_of(results).push(written_member(done)->0),
{
    assert(results.push(done).drop_last() =~= results);
}

/// The object that holds one member and no more.
proof fn lemma_object_of_one(member: EncodedMember)
    ensures
        object_bytes(seq![member]) == seq![OBJECT_BEGIN] + member_bytes(member) + seq![OBJECT_END],
{
    let empty = Seq::<EncodedMember>::empty();
    lemma_member_appended(empty, member);
    assert(empty.push(member) =~= seq![member]);
    assert(members_bytes(empty) =~= Seq::<u8>::empty());
    assert(object_bytes(seq![member]) =~= seq![OBJECT_BEGIN] + member_bytes(member) + seq![
        OBJECT_END,
    ]);
}

/// Of two tasks of which one fails and the other finishes with the text,
/// the output is one object, closed, that holds the member of the one that
/// finished and nothing of the one that failed, whichever ended first.
pub proof fn lemma_failed_left_out_other_written(failed: MetadataResult, done: MetadataResult)
    requires
        failed.outcome is Err,
        done.outcome is Ok,
    ensures
        ({
            let member = written_member(done)->0;
            let object = seq![OBJECT_BEGIN] + member_bytes(member) + seq![OBJECT_END];
            &&& member == encoded_member(done.url@.output_key(), done.outcome->Ok_0@)
            &&& members_of(seq![failed, done]) == seq![member]
            &&& members_of(seq![done, failed]) == seq![member]
            &&& output_of(seq![failed, done]) == object
            &&& output_of(seq![done, failed]) == object
        }),
{
    let member = written_member(done)->0;
    let none = Seq::<MetadataResult>::empty();
    assert(seq![failed, done] =~= none.push(failed).push(done));
    assert(seq![done, failed] =~= none.push(done).push(failed));
    lemma_failure_adds_no_member(none, failed);
    lemma_success_adds_last_member(none.push(failed), done);
    lemma_success_adds_last_member(none, done);
    lemma_failure_adds_no_member(none.push(done), failed);
    assert(members_of(none) =~= Seq::<EncodedMember>::empty());
    assert(Seq::<EncodedMember>::empty().push(member) =~= seq![member]);
    lemma_object_of_one(member);
}

/// Of two tasks that both finish with the text, the one that finishes first
/// has its member first in the output, whichever was started first.
pub proof fn lemma_first_finished_first_written(first: MetadataResult, second: MetadataResult)
    requires
        first.outcome is Ok,
        second.outcome is Ok,
    ensures
        ({
            let one = written_member(first)->0;
            let two = written_member(second)->0;
            &&& members_of(seq![first, second]) == seq![one, two]
            &&& output_of(seq![first, second]) == seq![OBJECT_BEGIN] + member_bytes(one) + seq![
                COMMA,
            ] + member_bytes(two) + seq![OBJECT_END]
        }),
{
    let one = written_member(first)->0;
    let two = written_member(second)->0;
    let none = Seq::<MetadataResult>::empty();
    assert(seq![first, second] =~= none.push(first).push(second));
    lemma_success_adds_last_member(none, first);
    lemma_success_adds_last_member(none.push(first), second);
    assert(members_of(none) =~= Seq::<EncodedMember>::empty());
    let empty = Seq::<EncodedMember>::empty();
    assert(empty.push(one).push(two) =~= seq![one, two]);
    lemma_member_appended(empty, one);
    lemma_member_appended(empty.push(one), two);
    assert(members_bytes(empty) =~= Seq::<u8>::empty());
    assert(object_bytes(seq![one, two]) =~= seq![OBJECT_BEGIN] + member_bytes(one) + seq![COMMA]
        + member_bytes(two) + seq![OBJECT_END]);
}

/// The whole output for the results of all tasks, given in the order in
/// which the tasks finished: a JSON object with one member for each task that
/// has the text, in that order, and none for a task that failed.
pub fn encode_results(results: &Vec<MetadataResult>) -> (bytes: Vec<u8>)
    ensures
        bytes@ == output_of(results@),
{
    let (mut encoder, mut bytes) = ObjectEncoder::begin();
    let mut done: usize = 0;
    assert(results@.take(0) =~= Seq::<MetadataResult>::empty());
    while done < results.len()
        invariant
            done <= results.len(),
            members_of(results@.take(done as int)) == encoder.members(),
            bytes@ == encoder.written(),
            encoder.written() == open_object_bytes(encoder.members()),
        decreases results.len() - done,
    {
        proof {
            let upto = results@.take(done as int + 1);
            assert(upto.drop_last() =~= results@.take(done as int));
            assert(upto.last() == results@[done as int]);
        }
        let mut chunk = encoder.result(&results[done]);
        bytes.append(&mut chunk);
        done += 1;
    }
    assert(results@.take(done as int) =~= results@);
    let mut chunk = encoder.end();
    bytes.append(&mut chunk);
    bytes
}

} // verus!
