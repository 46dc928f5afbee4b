//! The tooltip registry: a mapping from trigger word to tooltip entry,
//! populated at startup and queried by exact byte-for-byte match.

use vstd::prelude::*;

verus! {

/// One tooltip: the trigger word that opens it, the display name shown on
/// the clickable element, and the body text of the opened overlay.
pub struct TooltipEntry {
    pub trigger: Vec<u8>,
    pub name: Vec<u8>,
    pub body: Vec<u8>,
}

/// The mathematical value of a `TooltipEntry`.
pub struct EntryView {
    pub trigger: Seq<u8>,
    pub name: Seq<u8>,
    pub body: Seq<u8>,
}

impl View for TooltipEntry {
    type V = EntryView;

    open spec fn view(&self) -> EntryView {
        EntryView { trigger: self.trigger@, name: self.name@, body: self.body@ }
    }
}

/// The map an entry sequence stands for: each entry under its trigger, later
/// entries overriding earlier ones with the same trigger.
pub open spec fn entries_map(s: Seq<EntryView>) -> Map<Seq<u8>, EntryView>
    decreases s.len(),
{
    if s.len() == 0 {
        Map::empty()
    } else {
        entries_map(s.drop_last()).insert(s.last().trigger, s.last())
    }
}

/// The registry of tooltip entries, viewed as a map from trigger to entry.
pub struct TooltipRegistry {
    pub entries: Vec<TooltipEntry>,
}

impl View for TooltipRegistry {
    type V = Map<Seq<u8>, EntryView>;

    open spec fn view(&self) -> Map<Seq<u8>, EntryView> {
        entries_map(self.entries@.map_values(|e: TooltipEntry| e@))
    }
}

/// A key of the view map is exactly a trigger of some entry.
proof fn lemma_entries_map_dom(s: Seq<EntryView>, w: Seq<u8>)
    ensures
        entries_map(s).contains_key(w) <==> exists|i: int|
            0 <= i < s.len() && s[i].trigger == w,
    decreases s.len(),
{
    if s.len() > 0 {
        lemma_entries_map_dom(s.drop_last(), w);
        if s.last().trigger == w {
            assert(s[s.len() - 1].trigger == w);
        } else if entries_map(s).contains_key(w) {
            let i = choose|i: int| 0 <= i < s.drop_last().len() && s.drop_last()[i].trigger == w;
            assert(s[i].trigger == w);
        } else {
            assert(forall|i: int| 0 <= i < s.len() - 1 ==> s.drop_last()[i] == s[i]);
        }
    }
}

/// When the triggers after position `i` all differ from `s[i].trigger`, the
/// view map holds `s[i]` under that trigger.
proof fn lemma_entries_map_at(s: Seq<EntryView>, i: int)
    requires
        0 <= i < s.len(),
        forall|j: int| i < j < s.len() ==> s[j].trigger != s[i].trigger,
    ensures
        entries_map(s).contains_key(s[i].trigger),
        entries_map(s)[s[i].trigger] == s[i],
    decreases s.len(),
{
    if i == s.len() - 1 {
        assert(s.last() == s[i]);
    } else {
        assert(forall|j: int| i < j < s.drop_last().len() ==> s.drop_last()[j] == s[j]);
        assert(s.drop_last()[i] == s[i]);
        lemma_entries_map_at(s.drop_last(), i);
        assert(s.last().trigger != s[i].trigger);
    }
}

/// Whether two byte sequences are equal, byte for byte.
fn bytes_eq(a: &[u8], b: &[u8]) -> (r: bool)
    ensures
        r <==> a@ == b@,
{
    if a.len() != b.len() {
        assert(a@.len() != b@.len());
        return false;
    }
    let mut i: usize = 0;
    while i < a.len()
        invariant
            0 <= i <= a@.len(),
            a@.len() == b@.len(),
            forall|j: int| 0 <= j < i ==> a@[j] == b@[j],
        decreases a@.len() - i,
    {
        if a[i] != b[i] {
            return false;
        }
        i = i + 1;
    }
    assert(a@ =~= b@);
    true
}

impl TooltipRegistry {
    /// The triggers of distinct entries are distinct, so the entry sequence
    /// and the view map carry the same information.
    pub open spec fn wf(self) -> bool {
        forall|i: int, j: int|
            0 <= i < j < self.entries@.len() ==> self.entries@[i]@.trigger
                != self.entries@[j]@.trigger
    }

    /// An empty registry.
    pub fn new() -> (reg: Self)
        ensures
            reg.wf(),
            reg@ == Map::<Seq<u8>, EntryView>::empty(),
    {
        let reg = TooltipRegistry { entries: Vec::new() };
        proof {
            assert(reg.entries@.map_values(|e: TooltipEntry| e@) =~= Seq::<EntryView>::empty());
        }
        reg
    }

    /// Add an entry under its trigger, replacing any entry already registered
    /// under the same trigger.
    pub fn register(&mut self, entry: TooltipEntry)
        requires
            old(self).wf(),
        ensures
            final(self).wf(),
            final(self)@ == old(self)@.insert(entry@.trigger, entry@),
    {
        let ghost old_views = self.entries@.map_values(|e: TooltipEntry| e@);
        let mut i: usize = 0;
        while i < self.entries.len()
            invariant
                0 <= i <= self.entries@.len(),
                self.entries@ == old(self).entries@,
                old(self).wf(),
                old_views == self.entries@.map_values(|e: TooltipEntry| e@),
                forall|j: int| 0 <= j < i ==> self.entries@[j]@.trigger != entry@.trigger,
            decreases self.entries@.len() - i,
        {
            if bytes_eq(self.entries[i].trigger.as_slice(), entry.trigger.as_slice()) {
                let ghost idx = i as int;
                self.entries.set(i, entry);
                proof {
                    let new_views = self.entries@.map_values(|e: TooltipEntry| e@);
                    assert(new_views =~= old_views.update(idx, entry@));
                    lemma_entries_map_update(old_views, idx, entry@);
                }
                return ;
            }
            i = i + 1;
        }
        self.entries.push(entry);
        proof {
            let new_views = self.entries@.map_values(|e: TooltipEntry| e@);
            assert(new_views.drop_last() =~= old_views);
            assert(new_views.last() == entry@);
        }
    }

    /// Look the word up by exact match: the entry registered under `word`,
    /// byte for byte, or nothing.
    pub fn lookup(&self, word: &[u8]) -> (r: Option<&TooltipEntry>)
        requires
            self.wf(),
        ensures
            match r {
                Some(e) => self@.contains_key(word@) && e@ == self@[word@],
                None => !self@.contains_key(word@),
            },
    {
        let ghost views = self.entries@.map_values(|e: TooltipEntry| e@);
        let mut i: usize = 0;
        while i < self.entries.len()
            invariant
                0 <= i <= self.entries@.len(),
                self.wf(),
                views == self.entries@.map_values(|e: TooltipEntry| e@),
                forall|j: int| 0 <= j < i ==> self.entries@[j]@.trigger != word@,
            decreases self.entries@.len() - i,
        {
            if bytes_eq(self.entries[i].trigger.as_slice(), word) {
                proof {
                    lemma_entries_map_at(views, i as int);
                }
                return Some(&self.entries[i]);
            }
            i = i + 1;
        }
        proof {
            lemma_entries_map_dom(views, word@);
        }
        None
    }

    /// How many entries are registered.
    pub fn len(&self) -> (n: usize)
        ensures
            n == self.entries@.len(),
    {
        self.entries.len()
    }
}

/// Replacing the entry at `i` by one with the same trigger updates the view
/// map at that trigger alone.
proof fn lemma_entries_map_update(s: Seq<EntryView>, i: int, e: EntryView)
    requires
        0 <= i < s.len(),
        s[i].trigger == e.trigger,
        forall|p: int, q: int| 0 <= p < q < s.len() ==> s[p].trigger != s[q].trigger,
    ensures
        entries_map(s.update(i, e)) == entries_map(s).insert(e.trigger, e),
    decreases s.len(),
{
    let t = s.update(i, e);
    if i == s.len() - 1 {
        assert(t.drop_last() =~= s.drop_last());
        assert(t.last() == e);
        assert(entries_map(s.drop_last()).insert(s.last().trigger, s.last()).insert(e.trigger, e)
            =~= entries_map(s.drop_last()).insert(e.trigger, e));
    } else {
        assert(forall|p: int, q: int|
            0 <= p < q < s.drop_last().len() ==> s.drop_last()[p].trigger
                != s.drop_last()[q].trigger);
        assert(s.drop_last()[i] == s[i]);
        lemma_entries_map_update(s.drop_last(), i, e);
        assert(t.drop_last() =~= s.drop_last().update(i, e));
        assert(t.last() == s.last());
        assert(s.last().trigger != e.trigger);
        assert(entries_map(s.drop_last()).insert(e.trigger, e).insert(
            s.last().trigger,
            s.last(),
        ) =~= entries_map(s.drop_last()).insert(s.last().trigger, s.last()).insert(e.trigger, e));
    }
}

} // verus!
