//! Topic metadata and the list of topics from which the user picks the ones to search.
use vstd::prelude::*;
use crate::buffer::text_cmp;
use crate::text::{chars_of, contains, is_infix, same_chars};

verus! {

/// The states of a consumer group.
#[derive(Debug, Clone, Copy, PartialEq, Eq, Structural, Default)]
pub enum ConsumerGroupState {
    #[default]
    Unknown,
    Empty,
    Dead,
    Stable,
    PreparingRebalance,
    CompletingRebalance,
    Rebalancing,
    UnknownRebalance,
}

#[derive(Debug, Clone, PartialEq, Eq, Default)]
pub struct MemberAssignment {
    pub topic: String,
    pub partitions: Vec<i32>,
}

/// A member of a consumer group, with the offsets between which it still has to read.
#[derive(Debug, Clone, PartialEq, Eq, Default)]
pub struct ConsumerGroupMember {
    pub member: String,
    pub start_offset: usize,
    pub end_offset: usize,
    pub assignments: Vec<MemberAssignment>,
}

#[derive(Debug, Clone, PartialEq, Eq, Default)]
pub struct ConsumerGroupDetail {
    pub name: String,
    pub members: Vec<ConsumerGroupMember>,
    pub state: ConsumerGroupState,
}

/// The configuration entries of a topic.
#[derive(Debug, Clone, PartialEq, Eq, Default)]
pub struct TopicConfig {
    pub name: String,
    pub entries: Vec<(String, String)>,
}

/// A topic, its partitions, replicas and consumer groups.
#[derive(Debug, Clone, PartialEq, Eq, Default)]
pub struct TopicDetail {
    pub name: String,
    pub partitions: usize,
    pub replicas: usize,
    pub consumer_groups: Vec<ConsumerGroupDetail>,
    pub count: i64,
    pub config: Option<TopicConfig>,
}

/// The records that the members have left to read, summed over `ms[..k]`.
pub open spec fn lag_of(ms: Seq<ConsumerGroupMember>, k: int) -> int
    decreases k,
{
    if k <= 0 || k > ms.len() {
        0
    } else {
        lag_of(ms, k - 1) + (ms[k - 1].end_offset - ms[k - 1].start_offset)
    }
}

impl ConsumerGroupDetail {
    /// The sum over the members of `end_offset - start_offset`.
    pub fn lag(&self) -> (r: usize)
        requires
            forall|i: int| 0 <= i < self.members@.len() ==> #[trigger] self.members@[i].start_offset
                <= self.members@[i].end_offset,
            lag_of(self.members@, self.members@.len() as int) <= usize::MAX,
        ensures
            r == lag_of(self.members@, self.members@.len() as int),
    {
        let mut total: usize = 0;
        let mut i: usize = 0;
        while i < self.members.len()
            invariant
                0 <= i <= self.members@.len(),
                total == lag_of(self.members@, i as int),
                forall|k: int| 0 <= k < self.members@.len() ==> #[trigger] self.members@[k].start_offset
                    <= self.members@[k].end_offset,
                lag_of(self.members@, self.members@.len() as int) <= usize::MAX,
            decreases self.members.len() - i,
        {
            proof {
                lemma_lag_grows(self.members@, i as int + 1, self.members@.len() as int);
            }
            let m = &self.members[i];
            total = total + (m.end_offset - m.start_offset);
            i = i + 1;
        }
        total
    }

    /// Whether the state of the group is known; it always is.
    pub fn state(&self) -> (r: bool)
        ensures
            r,
    {
        true
    }
}

proof fn lemma_lag_grows(ms: Seq<ConsumerGroupMember>, j: int, k: int)
    requires
        0 <= j <= k <= ms.len(),
        forall|i: int| 0 <= i < ms.len() ==> #[trigger] ms[i].start_offset <= ms[i].end_offset,
    ensures
        lag_of(ms, j) <= lag_of(ms, k),
    decreases k - j,
{
    if j < k {
        lemma_lag_grows(ms, j, k - 1);
    }
}

pub open spec fn names(v: Seq<String>) -> Seq<Seq<char>> {
    v.map_values(|s: String| s@)
}

/// Inserts `x` after every element of `t` that does not come after it.
pub open spec fn insert_name(x: Seq<char>, t: Seq<Seq<char>>) -> Seq<Seq<char>>
    decreases t.len(),
{
    if t.len() == 0 {
        seq![x]
    } else if text_cmp(t.last(), x) <= 0 {
        t.push(x)
    } else {
        insert_name(x, t.drop_last()).push(t.last())
    }
}

/// The names in increasing order of their characters' codes.
pub open spec fn sort_names(s: Seq<Seq<char>>) -> Seq<Seq<char>>
    decreases s.len(),
{
    if s.len() == 0 {
        s
    } else {
        insert_name(s.last(), sort_names(s.drop_last()))
    }
}

/// Relies on `slice::sort` on strings: the strings in increasing order, which
/// for UTF-8 text is the order of the characters' codes.
#[verifier::external_body]
fn sort_strings(v: &mut Vec<String>)
    ensures
        names(final(v)@) == sort_names(names(old(v)@)),
{
    v.sort()
}

/// `s` without the elements that repeat the element just before them.
pub open spec fn dedup_names(s: Seq<Seq<char>>) -> Seq<Seq<char>>
    decreases s.len(),
{
    if s.len() <= 1 {
        s
    } else if s.last() == s[s.len() - 2] {
        dedup_names(s.drop_last())
    } else {
        dedup_names(s.drop_last()).push(s.last())
    }
}

/// The elements of `s` that are, or are not, in `other`, in order.
pub open spec fn keep_in(s: Seq<Seq<char>>, other: Seq<Seq<char>>, inside: bool) -> Seq<Seq<char>>
    decreases s.len(),
{
    if s.len() == 0 {
        s
    } else if other.contains(s.last()) == inside {
        keep_in(s.drop_last(), other, inside).push(s.last())
    } else {
        keep_in(s.drop_last(), other, inside)
    }
}

fn has_name(v: &Vec<String>, t: &String) -> (r: bool)
    ensures
        r == names(v@).contains(t@),
{
    let tv = chars_of(t.as_str());
    let mut i: usize = 0;
    while i < v.len()
        invariant
            0 <= i <= v@.len(),
            tv@ == t@,
            forall|k: int| 0 <= k < i ==> #[trigger] v@[k]@ != t@,
        decreases v.len() - i,
    {
        let c = chars_of(v[i].as_str());
        if same_chars(&c, &tv) {
            assert(names(v@)[i as int] == t@);
            return true;
        }
        i = i + 1;
    }
    assert forall|k: int| 0 <= k < names(v@).len() implies names(v@)[k] != t@ by {
        assert(names(v@)[k] == v@[k]@);
    }
    false
}

fn dedup_strings(v: Vec<String>) -> (r: Vec<String>)
    ensures
        names(r@) == dedup_names(names(v@)),
{
    let ghost s = names(v@);
    let mut out: Vec<String> = Vec::new();
    let mut i: usize = 0;
    while i < v.len()
        invariant
            s == names(v@),
            0 <= i <= v@.len(),
            names(out@) == dedup_names(s.subrange(0, i as int)),
            i > 0 ==> out@.len() > 0 && out@.last()@ == s[i - 1],
        decreases v.len() - i,
    {
        let ghost pre = s.subrange(0, i as int);
        let ghost now = s.subrange(0, i as int + 1);
        assert(now.drop_last() == pre);
        let keep = if i == 0 {
            true
        } else {
            let a = chars_of(v[i].as_str());
            let b = chars_of(v[i - 1].as_str());
            !same_chars(&a, &b)
        };
        proof {
            if i > 0 {
                assert(now[i - 1] == s[i - 1]);
                assert(now.last() == s[i as int]);
                if !keep {
                    assert(dedup_names(now) == dedup_names(pre));
                }
            }
        }
        if keep {
            let ghost before = out@;
            out.push(v[i].clone());
            assert(names(out@) =~= names(before).push(s[i as int]));
        }
        i = i + 1;
    }
    assert(s.subrange(0, s.len() as int) == s);
    out
}

fn keep_strings(v: &Vec<String>, other: &Vec<String>, inside: bool) -> (r: Vec<String>)
    ensures
        names(r@) == keep_in(names(v@), names(other@), inside),
{
    let ghost s = names(v@);
    let mut out: Vec<String> = Vec::new();
    let mut i: usize = 0;
    while i < v.len()
        invariant
            s == names(v@),
            0 <= i <= v@.len(),
            names(out@) == keep_in(s.subrange(0, i as int), names(other@), inside),
        decreases v.len() - i,
    {
        let ghost now = s.subrange(0, i as int + 1);
        assert(now.drop_last() == s.subrange(0, i as int));
        assert(now.last() == v@[i as int]@);
        if has_name(other, &v[i]) == inside {
            let ghost before = out@;
            out.push(v[i].clone());
            assert(names(out@) =~= names(before).push(v@[i as int]@));
        }
        i = i + 1;
    }
    assert(s.subrange(0, s.len() as int) == s);
    out
}

/// The topics that the user can pick from, those picked, and the text that
/// narrows the list.
#[derive(Debug, Default)]
pub struct TopicList {
    topics: Vec<String>,
    selected: Vec<String>,
    filter: String,
}

impl TopicList {
    pub closed spec fn topics_view(&self) -> Seq<Seq<char>> {
        names(self.topics@)
    }

    pub closed spec fn selected_view(&self) -> Seq<Seq<char>> {
        names(self.selected@)
    }

    pub closed spec fn filter_view(&self) -> Seq<char> {
        self.filter@
    }

    /// A list of the given topics; those already selected are listed as selected only.
    pub fn new(topics: Vec<String>, selected: Vec<String>) -> (r: TopicList)
        ensures
            r.topics_view() == keep_in(names(topics@), names(selected@), false),
            r.selected_view() == names(selected@),
            r.filter_view() == Seq::<char>::empty(),
    {
        let t = keep_strings(&topics, &selected, false);
        TopicList { topics: t, selected, filter: String::new() }
    }

    pub fn selected(&self) -> (r: &[String])
        ensures
            names(r@) == self.selected_view(),
    {
        self.selected.as_slice()
    }

    pub fn any_selected(&self) -> (r: bool)
        ensures
            r == (self.selected_view().len() > 0),
    {
        self.selected.len() > 0
    }

    pub fn set_filter(&mut self, filter: &str)
        ensures
            final(self).filter_view() == filter@,
            final(self).topics_view() == old(self).topics_view(),
            final(self).selected_view() == old(self).selected_view(),
    {
        let mut f = String::new();
        crate::text::push_str(&mut f, filter);
        self.filter = f;
    }

    /// The selected topics, marked selected, then the other topics that hold
    /// the filter text, each marked with whether it is selected.
    pub fn get_with_selection(&self) -> (r: Vec<(&String, bool)>)
        ensures
            r@.len() == self.selected_view().len() + shown(self.topics_view(), self.filter_view()).len(),
            forall|i: int| 0 <= i < self.selected_view().len() ==> (#[trigger] r@[i]).0@ == self.selected_view()[i] && r@[i].1,
            forall|i: int| 0 <= i < shown(self.topics_view(), self.filter_view()).len() ==> (
            #[trigger] r@[self.selected_view().len() + i]).0@ == shown(self.topics_view(), self.filter_view())[i]
                && r@[self.selected_view().len() + i].1 == self.selected_view().contains(
                shown(self.topics_view(), self.filter_view())[i],
            ),
    {
        let mut list: Vec<(&String, bool)> = Vec::new();
        let mut i: usize = 0;
        while i < self.selected.len()
            invariant
                0 <= i <= self.selected@.len(),
                list@.len() == i,
                forall|k: int| 0 <= k < i ==> (#[trigger] list@[k]).0@ == self.selected@[k]@ && list@[k].1,
            decreases self.selected.len() - i,
        {
            list.push((&self.selected[i], true));
            i = i + 1;
        }
        let fv = chars_of(self.filter.as_str());
        let n = self.selected.len();
        let ghost sh = Seq::<Seq<char>>::empty();
        let mut j: usize = 0;
        let ghost tv = self.topics_view();
        let ghost fl = self.filter_view();
        while j < self.topics.len()
            invariant
                0 <= j <= self.topics@.len(),
                n == self.selected@.len(),
                fv@ == fl,
                fl == self.filter@,
                tv == names(self.topics@),
                list@.len() == n + shown(tv.subrange(0, j as int), fl).len(),
                forall|k: int| 0 <= k < n ==> (#[trigger] list@[k]).0@ == self.selected@[k]@ && list@[k].1,
                forall|k: int| 0 <= k < shown(tv.subrange(0, j as int), fl).len() ==> (#[trigger] list@[n + k]).0@
                    == shown(tv.subrange(0, j as int), fl)[k] && list@[n + k].1 == names(self.selected@).contains(
                    shown(tv.subrange(0, j as int), fl)[k],
                ),
            decreases self.topics.len() - j,
        {
            let ghost now = tv.subrange(0, j as int + 1);
            assert(now.drop_last() == tv.subrange(0, j as int));
            assert(now.last() == self.topics@[j as int]@);
            let t = &self.topics[j];
            let tc = chars_of(t.as_str());
            if fv.len() == 0 || contains(&tc, &fv) {
                let sel = has_name(&self.selected, t);
                list.push((t, sel));
            }
            j = j + 1;
        }
        assert(tv.subrange(0, tv.len() as int) == tv);
        list
    }

    pub fn all(&self) -> (r: &[String])
        ensures
            names(r@) == self.topics_view(),
    {
        self.topics.as_slice()
    }

    /// The topics as `get_with_selection` lists them, without the marks.
    pub fn get(&self) -> (r: Vec<&String>)
        ensures
            r@.len() == self.selected_view().len() + shown(self.topics_view(), self.filter_view()).len(),
            forall|i: int| 0 <= i < self.selected_view().len() ==> (#[trigger] r@[i])@ == self.selected_view()[i],
            forall|i: int| 0 <= i < shown(self.topics_view(), self.filter_view()).len() ==> (
            #[trigger] r@[self.selected_view().len() + i])@ == shown(self.topics_view(), self.filter_view())[i],
    {
        let l = self.get_with_selection();
        let mut r: Vec<&String> = Vec::new();
        let mut i: usize = 0;
        while i < l.len()
            invariant
                0 <= i <= l@.len(),
                r@.len() == i,
                forall|k: int| 0 <= k < i ==> #[trigger] r@[k] == l@[k].0,
            decreases l.len() - i,
        {
            r.push(l[i].0);
            i = i + 1;
        }
        r
    }

    /// Replaces the topics with a fresh list: sorted, the selection kept for
    /// the topics that still exist.
    pub fn refresh_topics(&mut self, new_topics: Vec<String>)
        ensures
            final(self).selected_view() == keep_in(refreshed(names(new_topics@)), old(self).selected_view(), true),
            final(self).topics_view() == keep_in(refreshed(names(new_topics@)), final(self).selected_view(), false),
            final(self).filter_view() == old(self).filter_view(),
    {
        let (t, s) = Self::init(&self.selected, new_topics);
        self.topics = t;
        self.selected = s;
    }

    fn init(selected: &Vec<String>, new_topics: Vec<String>) -> (r: (Vec<String>, Vec<String>))
        ensures
            names(r.1@) == keep_in(refreshed(names(new_topics@)), names(selected@), true),
            names(r.0@) == keep_in(refreshed(names(new_topics@)), names(r.1@), false),
    {
        let mut v = dedup_strings(new_topics);
        sort_strings(&mut v);
        let ghost rv = names(v@);
        let sel = keep_strings(&v, selected, true);
        let topics = keep_strings(&v, &sel, false);
        (topics, sel)
    }

    /// Selects the topic, or unselects it when it is selected; the list of
    /// the other topics ends sorted.
    pub fn toggle_topics(&mut self, topic: &str)
        ensures
            final(self).filter_view() == old(self).filter_view(),
            old(self).selected_view().contains(topic@) ==> final(self).selected_view() == keep_in(
                old(self).selected_view(),
                seq![topic@],
                false,
            ) && final(self).topics_view() == sort_names(old(self).topics_view().push(topic@)),
            !old(self).selected_view().contains(topic@) ==> final(self).selected_view() == old(
                self,
            ).selected_view().push(topic@) && final(self).topics_view() == sort_names(
                keep_in(old(self).topics_view(), seq![topic@], false),
            ),
    {
        let mut t = String::new();
        crate::text::push_str(&mut t, topic);
        let one = vec![t.clone()];
        assert(names(one@) =~= seq![topic@]);
        if has_name(&self.selected, &t) {
            let sel = keep_strings(&self.selected, &one, false);
            let ghost before = self.topics@;
            self.topics.push(t);
            assert(names(self.topics@) =~= names(before).push(topic@));
            self.selected = sel;
        } else {
            let ghost before = self.selected@;
            let rest = keep_strings(&self.topics, &one, false);
            self.selected.push(t);
            assert(names(self.selected@) =~= names(before).push(topic@));
            self.topics = rest;
        }
        sort_strings(&mut self.topics);
    }

    /// Moves every selected topic back to the list, which ends sorted.
    pub fn clear_selected(&mut self)
        ensures
            final(self).selected_view() == Seq::<Seq<char>>::empty(),
            final(self).topics_view() == refreshed(old(self).topics_view() + old(self).selected_view()),
            final(self).filter_view() == old(self).filter_view(),
    {
        let mut all: Vec<String> = Vec::new();
        let mut i: usize = 0;
        while i < self.topics.len()
            invariant
                0 <= i <= self.topics@.len(),
                names(all@) == names(self.topics@).subrange(0, i as int),
            decreases self.topics.len() - i,
        {
            let ghost before = all@;
            let c = self.topics[i].clone();
            assert(c@ == self.topics@[i as int]@);
            all.push(c);
            assert(names(all@) =~= names(before).push(self.topics@[i as int]@));
            i = i + 1;
            assert(names(all@) =~= names(self.topics@).subrange(0, i as int));
        }
        let mut k: usize = 0;
        while k < self.selected.len()
            invariant
                0 <= k <= self.selected@.len(),
                names(all@) == names(self.topics@) + names(self.selected@).subrange(0, k as int),
            decreases self.selected.len() - k,
        {
            let ghost before = all@;
            let c = self.selected[k].clone();
            assert(c@ == self.selected@[k as int]@);
            all.push(c);
            assert(names(all@) =~= names(before).push(self.selected@[k as int]@));
            k = k + 1;
            assert(names(all@) =~= names(self.topics@) + names(self.selected@).subrange(0, k as int));
        }
        assert(names(self.topics@).subrange(0, self.topics@.len() as int) == names(self.topics@));
        assert(names(self.selected@).subrange(0, self.selected@.len() as int) == names(self.selected@));
        let mut d = dedup_strings(all);
        sort_strings(&mut d);
        self.topics = d;
        self.selected = Vec::new();
        assert(names(self.selected@) =~= Seq::<Seq<char>>::empty());
    }
}

/// The topics of `t` that hold the filter text; an empty filter keeps them all.
pub open spec fn shown(t: Seq<Seq<char>>, f: Seq<char>) -> Seq<Seq<char>>
    decreases t.len(),
{
    if t.len() == 0 {
        t
    } else if f.len() == 0 || is_infix(f, t.last()) {
        shown(t.drop_last(), f).push(t.last())
    } else {
        shown(t.drop_last(), f)
    }
}

/// A list of topics without adjacent repeats, then sorted.
pub open spec fn refreshed(t: Seq<Seq<char>>) -> Seq<Seq<char>> {
    sort_names(dedup_names(t))
}

} // verus!
