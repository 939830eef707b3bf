//! Content fingerprints: the bytes that stand for a lesson, a group or a
//! whole timetable, their SHA-256 digest, and the short printable
//! identifier made of it.

use crate::text::{char_of, string_of};
use crate::timetable::{or_empty, Group, GroupData, Lesson, LessonData, Num};
use sha2::Digest;
use vstd::prelude::*;
use vstd::utf8::encode_utf8;

verus! {

/// The SHA-256 digest of a run of bytes.
pub uninterp spec fn sha256_of(data: Seq<u8>) -> Seq<u8>;

/// `sha2::Sha256::digest` (`digest::Digest::digest`): the SHA-256 digest of
/// the given bytes, which has 32 bytes.
#[verifier::external_body]
fn sha256(data: &[u8]) -> (r: [u8; 32])
    ensures
        r@ == sha256_of(data@),
{
    sha2::Sha256::digest(data).into()
}

/// The digit of base 36 with value `v`: `0` to `9`, then `a` to `z`.
pub open spec fn base36_digit(v: int) -> char {
    if v < 10 {
        (0x30 + v) as u32 as char
    } else {
        (0x61 + v - 10) as u32 as char
    }
}

/// The character that stands for three bytes of a digest: the digit of base
/// 36 whose value is what the bytes, combined by exclusive or, leave on
/// division by 36.
pub open spec fn uid_char(a: u8, b: u8, c: u8) -> char {
    base36_digit(((a ^ b ^ c) % 36) as int)
}

/// The identifier made of a run of bytes: one character for each full
/// group of three bytes.
pub open spec fn uid_text(bytes: Seq<u8>) -> Seq<char> {
    Seq::new(
        (bytes.len() / 3) as nat,
        |k: int| uid_char(bytes[3 * k], bytes[3 * k + 1], bytes[3 * k + 2]),
    )
}

/// Writes bytes as a short identifier of digits and small letters.
pub fn bytes_as_str(bytes: &[u8]) -> (r: String)
    ensures
        r@ == uid_text(bytes@),
{
    let len: usize = bytes.len();
    let n: usize = len / 3;
    let mut out: Vec<char> = Vec::new();
    let mut k: usize = 0;
    while k < n
        invariant
            len == bytes@.len(),
            n == len / 3,
            k <= n,
            out@.len() == k,
            forall|j: int| 0 <= j < k ==> #[trigger] out@[j] == uid_text(bytes@)[j],
        decreases n - k,
    {
        let v: u8 = (bytes[3 * k] ^ bytes[3 * k + 1] ^ bytes[3 * k + 2]) % 36;
        let c = if v < 10 {
            char_of(0x30 + v as u32, '0')
        } else {
            char_of(0x61 + (v as u32 - 10), '0')
        };
        out.push(c);
        k = k + 1;
    }
    assert(out@ =~= uid_text(bytes@));
    string_of(&out)
}

/// The bytes that stand for a lesson number: a tag for its kind, then the
/// number itself or zero.
pub open spec fn num_bytes(num: Num) -> Seq<u8> {
    match num {
        Num::Actual(n) => seq![1u8, n],
        Num::Previous => seq![2u8, 0u8],
        Num::Absent => seq![0u8, 0u8],
    }
}

/// The subgroup as one byte, zero where there is none.
pub open spec fn subgroup_byte(subgroup: Option<u8>) -> u8 {
    match subgroup {
        Some(s) => s,
        None => 0,
    }
}

/// The bytes that stand for a lesson: its classroom, teacher and name in
/// UTF-8 (an absent one as the empty text), then its subgroup and its
/// number, in this order.
pub open spec fn lesson_bytes(l: LessonData) -> Seq<u8> {
    encode_utf8(or_empty(l.classroom)) + encode_utf8(or_empty(l.teacher)) + encode_utf8(l.name)
        + seq![subgroup_byte(l.subgroup)] + num_bytes(l.num)
}

/// The bytes of a run of lessons, one after the other.
pub open spec fn lessons_bytes(lessons: Seq<LessonData>) -> Seq<u8>
    decreases lessons.len(),
{
    if lessons.len() == 0 {
        Seq::empty()
    } else {
        lessons_bytes(lessons.drop_last()) + lesson_bytes(lessons.last())
    }
}

/// The bytes that stand for a group: its name in UTF-8, then its lessons.
pub open spec fn group_bytes(name: Seq<char>, lessons: Seq<LessonData>) -> Seq<u8> {
    encode_utf8(name) + lessons_bytes(lessons)
}

/// The bytes of a run of groups, one after the other.
pub open spec fn groups_bytes(groups: Seq<GroupData>) -> Seq<u8>
    decreases groups.len(),
{
    if groups.len() == 0 {
        Seq::empty()
    } else {
        groups_bytes(groups.drop_last()) + group_bytes(groups.last().name, groups.last().lessons)
    }
}

/// The identifier of a content: the printable form of the SHA-256 digest of
/// its bytes.
pub open spec fn uid_of(content: Seq<u8>) -> Seq<char> {
    uid_text(sha256_of(content))
}

/// The identifier of a group with the given name and lessons.
pub open spec fn group_uid(name: Seq<char>, lessons: Seq<LessonData>) -> Seq<char> {
    uid_of(group_bytes(name, lessons))
}

/// Values with a content fingerprint.
pub trait Uid {
    /// The bytes that stand for the value's content.
    spec fn content(&self) -> Seq<u8>;

    /// The SHA-256 digest of the value's content.
    fn uid_bytes(&self) -> (r: [u8; 32])
        ensures
            r@ == sha256_of(self.content()),
    ;

    /// The short printable identifier of the value's content.
    fn uid(&self) -> (r: String)
        ensures
            r@ == uid_of(self.content()),
    {
        let bytes = self.uid_bytes();
        bytes_as_str(bytes.as_slice())
    }
}

fn push_bytes(buf: &mut Vec<u8>, bytes: &[u8])
    ensures
        final(buf)@ == old(buf)@ + bytes@,
{
    let ghost before = buf@;
    let mut i: usize = 0;
    while i < bytes.len()
        invariant
            i <= bytes.len(),
            buf@ == before + bytes@.subrange(0, i as int),
        decreases bytes.len() - i,
    {
        buf.push(bytes[i]);
        i = i + 1;
    }
    assert(bytes@.subrange(0, bytes.len() as int) == bytes@);
}

fn push_text(buf: &mut Vec<u8>, text: &Option<String>)
    ensures
        final(buf)@ == old(buf)@ + encode_utf8(or_empty(crate::timetable::opt_view(*text))),
{
    match text {
        Some(s) => {
            push_bytes(buf, s.as_str().as_bytes());
        },
        None => {
            proof {
                assert(encode_utf8(Seq::<char>::empty()) == Seq::<u8>::empty());
                assert(buf@ + Seq::<u8>::empty() == buf@);
            }
        },
    }
}

fn push_num(buf: &mut Vec<u8>, num: Num)
    ensures
        final(buf)@ == old(buf)@ + num_bytes(num),
{
    let ghost before = buf@;
    match num {
        Num::Actual(n) => {
            buf.push(1);
            buf.push(n);
        },
        Num::Previous => {
            buf.push(2);
            buf.push(0);
        },
        Num::Absent => {
            buf.push(0);
            buf.push(0);
        },
    }
    assert(buf@ == before + num_bytes(num));
}

fn push_lesson(buf: &mut Vec<u8>, lesson: &Lesson)
    ensures
        final(buf)@ == old(buf)@ + lesson_bytes(lesson@),
{
    let ghost before = buf@;
    push_text(buf, &lesson.classroom);
    push_text(buf, &lesson.teacher);
    push_bytes(buf, lesson.name.as_str().as_bytes());
    buf.push(
        match lesson.subgroup {
            Some(s) => s,
            None => 0,
        },
    );
    push_num(buf, lesson.num);
    assert(buf@ == before + lesson_bytes(lesson@));
}

pub(crate) fn push_group(buf: &mut Vec<u8>, group: &Group)
    ensures
        final(buf)@ == old(buf)@ + group_bytes(group@.name, group@.lessons),
{
    let ghost before = buf@;
    push_bytes(buf, group.name.as_str().as_bytes());
    let ghost named = buf@;
    let ghost model = group@.lessons;
    let mut i: usize = 0;
    assert(model.subrange(0, 0) == Seq::<LessonData>::empty());
    assert(named + Seq::<u8>::empty() == named);
    while i < group.lessons.len()
        invariant
            i <= group.lessons.len(),
            model == group@.lessons,
            buf@ == named + lessons_bytes(model.subrange(0, i as int)),
        decreases group.lessons.len() - i,
    {
        proof {
            let p = model.subrange(0, i + 1);
            assert(p.drop_last() == model.subrange(0, i as int));
            assert(p.last() == group.lessons@[i as int]@);
        }
        push_lesson(buf, &group.lessons[i]);
        assert(buf@ == named + lessons_bytes(model.subrange(0, i + 1)));
        i = i + 1;
    }
    assert(model.subrange(0, group.lessons.len() as int) == model);
    assert(buf@ == before + group_bytes(group@.name, group@.lessons));
}

pub(crate) fn digest_of(buf: &Vec<u8>) -> (r: [u8; 32])
    ensures
        r@ == sha256_of(buf@),
{
    sha256(buf.as_slice())
}

impl Uid for Num {
    open spec fn content(&self) -> Seq<u8> {
        num_bytes(*self)
    }

    fn uid_bytes(&self) -> (r: [u8; 32]) {
        let mut buf: Vec<u8> = Vec::new();
        push_num(&mut buf, *self);
        assert(buf@ == num_bytes(*self));
        digest_of(&buf)
    }
}

impl Uid for Lesson {
    open spec fn content(&self) -> Seq<u8> {
        lesson_bytes(self@)
    }

    fn uid_bytes(&self) -> (r: [u8; 32]) {
        let mut buf: Vec<u8> = Vec::new();
        push_lesson(&mut buf, self);
        assert(buf@ == lesson_bytes(self@));
        digest_of(&buf)
    }
}

impl Uid for Group {
    open spec fn content(&self) -> Seq<u8> {
        group_bytes(self@.name, self@.lessons)
    }

    fn uid_bytes(&self) -> (r: [u8; 32]) {
        let mut buf: Vec<u8> = Vec::new();
        push_group(&mut buf, self);
        assert(buf@ == group_bytes(self@.name, self@.lessons));
        digest_of(&buf)
    }
}

impl Group {
    /// The identifier of the group is that of its name and lessons.
    pub open spec fn wf(&self) -> bool {
        self@.uid == group_uid(self@.name, self@.lessons)
    }

    /// A group of the given name without lessons.
    pub fn new(name: String) -> (g: Group)
        ensures
            g@.name == name@,
            g@.lessons == Seq::<LessonData>::empty(),
            g.wf(),
    {
        let mut g = Group { uid: String::new(), name, lessons: Vec::new() };
        g.uid = g.uid();
        assert(g@.lessons =~= Seq::<LessonData>::empty());
        g
    }
}

/// Two texts with the same UTF-8 bytes are the same text.
pub proof fn lemma_utf8_injective(a: Seq<char>, b: Seq<char>)
    requires
        encode_utf8(a) == encode_utf8(b),
    ensures
        a == b,
{
    vstd::utf8::encode_utf8_decode_utf8(a);
    vstd::utf8::encode_utf8_decode_utf8(b);
}

/// Between the same bytes before and the same bytes after, different bytes
/// give different wholes.
pub proof fn lemma_middle_differs(p: Seq<u8>, x: Seq<u8>, y: Seq<u8>, r: Seq<u8>)
    requires
        x != y,
    ensures
        p + x + r != p + y + r,
{
    if p + x + r == p + y + r {
        assert((p + x + r).len() == p.len() + x.len() + r.len());
        assert((p + y + r).len() == p.len() + y.len() + r.len());
        assert forall|i: int| 0 <= i < x.len() implies x[i] == y[i] by {
            assert((p + x + r)[p.len() + i] == x[i]);
            assert((p + y + r)[p.len() + i] == y[i]);
        }
        assert(x =~= y);
    }
}

/// The bytes of lesson numbers tell the numbers apart.
pub proof fn lemma_num_bytes_injective(a: Num, b: Num)
    requires
        num_bytes(a) == num_bytes(b),
    ensures
        a == b,
{
    assert(num_bytes(a)[0] == num_bytes(b)[0]);
    assert(num_bytes(a)[1] == num_bytes(b)[1]);
}

/// Two lessons differ in exactly one of the five things that their bytes
/// are made of: the classroom and the teacher (an absent one counting as
/// the empty text), the name, the subgroup (an absent one counting as 0)
/// and the number.
pub open spec fn differ_in_one_field(a: LessonData, b: LessonData) -> bool {
    let c = or_empty(a.classroom) != or_empty(b.classroom);
    let t = or_empty(a.teacher) != or_empty(b.teacher);
    let n = a.name != b.name;
    let s = subgroup_byte(a.subgroup) != subgroup_byte(b.subgroup);
    let m = a.num != b.num;
    (if c { 1int } else { 0 }) + (if t { 1int } else { 0 }) + (if n { 1int } else { 0 }) + (if s { 1int } else { 0 }) + (if m { 1int } else { 0 }) == 1
}

/// What stands behind the same bytes is the same where the wholes are.
pub proof fn lemma_prefix_cancel(p: Seq<u8>, x: Seq<u8>, y: Seq<u8>)
    requires
        p + x == p + y,
    ensures
        x == y,
{
    assert((p + x).len() == p.len() + x.len());
    assert((p + y).len() == p.len() + y.len());
    assert forall|i: int| 0 <= i < x.len() implies x[i] == y[i] by {
        assert((p + x)[p.len() + i] == x[i]);
        assert((p + y)[p.len() + i] == y[i]);
    }
    assert(x =~= y);
}

/// What stands before the same bytes is the same where the wholes are.
pub proof fn lemma_suffix_cancel(x: Seq<u8>, y: Seq<u8>, r: Seq<u8>)
    requires
        x + r == y + r,
    ensures
        x == y,
{
    assert((x + r).len() == x.len() + r.len());
    assert((y + r).len() == y.len() + r.len());
    assert forall|i: int| 0 <= i < x.len() implies x[i] == y[i] by {
        assert((x + r)[i] == x[i]);
        assert((y + r)[i] == y[i]);
    }
    assert(x =~= y);
}

/// Five runs of bytes, put together from the left, are the same only where
/// each of the five is, provided that four of them are the same anyway.
proof fn lemma_one_of_five(
    c: Seq<u8>,
    t: Seq<u8>,
    n: Seq<u8>,
    s: Seq<u8>,
    m: Seq<u8>,
    c2: Seq<u8>,
    t2: Seq<u8>,
    n2: Seq<u8>,
    s2: Seq<u8>,
    m2: Seq<u8>,
)
    requires
        c + t + n + s + m == c2 + t2 + n2 + s2 + m2,
        (c == c2 && t == t2 && n == n2 && s == s2) || (c == c2 && t == t2 && n == n2 && m == m2)
            || (c == c2 && t == t2 && s == s2 && m == m2) || (c == c2 && n == n2 && s == s2 && m
            == m2) || (t == t2 && n == n2 && s == s2 && m == m2),
    ensures
        c == c2,
        t == t2,
        n == n2,
        s == s2,
        m == m2,
{
    if m == m2 {
        lemma_suffix_cancel(c + t + n + s, c2 + t2 + n2 + s2, m);
        if s == s2 {
            lemma_suffix_cancel(c + t + n, c2 + t2 + n2, s);
            if n == n2 {
                lemma_suffix_cancel(c + t, c2 + t2, n);
                if t == t2 {
                    lemma_suffix_cancel(c, c2, t);
                } else {
                    lemma_prefix_cancel(c, t, t2);
                }
            } else {
                lemma_prefix_cancel(c + t, n, n2);
            }
        } else {
            lemma_prefix_cancel(c + t + n, s, s2);
        }
    } else {
        lemma_prefix_cancel(c + t + n + s, m, m2);
    }
}

/// Fingerprints are sensitive, lesson by lesson: a change of any single
/// field of a lesson changes the bytes that are hashed for it.
pub proof fn lemma_lesson_bytes_sensitive(a: LessonData, b: LessonData)
    requires
        differ_in_one_field(a, b),
    ensures
        lesson_bytes(a) != lesson_bytes(b),
{
    if lesson_bytes(a) == lesson_bytes(b) {
        let sa = seq![subgroup_byte(a.subgroup)];
        let sb = seq![subgroup_byte(b.subgroup)];
        if subgroup_byte(a.subgroup) == subgroup_byte(b.subgroup) {
            assert(sa == sb);
        }
        lemma_one_of_five(
            encode_utf8(or_empty(a.classroom)),
            encode_utf8(or_empty(a.teacher)),
            encode_utf8(a.name),
            sa,
            num_bytes(a.num),
            encode_utf8(or_empty(b.classroom)),
            encode_utf8(or_empty(b.teacher)),
            encode_utf8(b.name),
            sb,
            num_bytes(b.num),
        );
        lemma_utf8_injective(or_empty(a.classroom), or_empty(b.classroom));
        lemma_utf8_injective(or_empty(a.teacher), or_empty(b.teacher));
        lemma_utf8_injective(a.name, b.name);
        lemma_num_bytes_injective(a.num, b.num);
        assert(sa[0] == sb[0]);
    }
}

/// The bytes of two runs of lessons, one after the other, are the bytes of
/// the first run followed by those of the second.
pub proof fn lemma_lessons_bytes_concat(s: Seq<LessonData>, t: Seq<LessonData>)
    ensures
        lessons_bytes(s + t) == lessons_bytes(s) + lessons_bytes(t),
    decreases t.len(),
{
    if t.len() == 0 {
        assert(s + t == s);
        assert(lessons_bytes(s) + Seq::<u8>::empty() == lessons_bytes(s));
    } else {
        lemma_lessons_bytes_concat(s, t.drop_last());
        assert((s + t).drop_last() == s + t.drop_last());
        assert((s + t).last() == t.last());
        assert(lessons_bytes(s + t) =~= lessons_bytes(s) + lessons_bytes(t));
    }
}

/// The bytes of a run of one lesson are the bytes of that lesson.
pub proof fn lemma_one_lesson_bytes(l: LessonData)
    ensures
        lessons_bytes(seq![l]) == lesson_bytes(l),
{
    let one = seq![l];
    assert(one.drop_last() == Seq::<LessonData>::empty());
    assert(one.last() == l);
    assert(lessons_bytes(one.drop_last()) == Seq::<u8>::empty());
    assert(Seq::<u8>::empty() + lesson_bytes(l) == lesson_bytes(l));
}

/// Fingerprints are stable: groups of the same name with the same lessons
/// have the same bytes, hence the same digest and the same identifier,
/// however often it is worked out.
pub proof fn lemma_fingerprint_stable(a: GroupData, b: GroupData)
    requires
        a.name == b.name,
        a.lessons == b.lessons,
    ensures
        group_bytes(a.name, a.lessons) == group_bytes(b.name, b.lessons),
        sha256_of(group_bytes(a.name, a.lessons)) == sha256_of(group_bytes(b.name, b.lessons)),
        group_uid(a.name, a.lessons) == group_uid(b.name, b.lessons),
{
}

/// Fingerprints are sensitive: where one lesson of a group changes in a
/// single field and nothing else does, the bytes that are hashed for the
/// group change. (The identifier is a digest of these bytes, cut down to ten
/// characters: it changes too unless the digest function or the cut maps
/// both to one value.)
pub proof fn lemma_fingerprint_sensitive(
    name: Seq<char>,
    a: Seq<LessonData>,
    b: Seq<LessonData>,
    k: int,
)
    requires
        a.len() == b.len(),
        0 <= k < a.len(),
        forall|i: int| 0 <= i < a.len() && i != k ==> a[i] == b[i],
        differ_in_one_field(a[k], b[k]),
    ensures
        group_bytes(name, a) != group_bytes(name, b),
{
    let pre = a.subrange(0, k);
    let post = a.subrange(k + 1, a.len() as int);
    assert(a =~= (pre + seq![a[k]]) + post);
    assert(b =~= (pre + seq![b[k]]) + post);
    lemma_lessons_bytes_concat(pre + seq![a[k]], post);
    lemma_lessons_bytes_concat(pre + seq![b[k]], post);
    lemma_lessons_bytes_concat(pre, seq![a[k]]);
    lemma_lessons_bytes_concat(pre, seq![b[k]]);
    lemma_one_lesson_bytes(a[k]);
    lemma_one_lesson_bytes(b[k]);
    lemma_lesson_bytes_sensitive(a[k], b[k]);
    let p = encode_utf8(name) + lessons_bytes(pre);
    let r = lessons_bytes(post);
    lemma_middle_differs(p, lesson_bytes(a[k]), lesson_bytes(b[k]), r);
    assert(group_bytes(name, a) =~= p + lesson_bytes(a[k]) + r);
    assert(group_bytes(name, b) =~= p + lesson_bytes(b[k]) + r);
}

} // verus!
