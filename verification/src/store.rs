//! The log-structured store: an append-only command log and an in-memory
//! index from key to the offset of the latest `Put` of that key.
//!
//! The store here keeps the log's commands in memory, in the order of the
//! lines of the log file; the surrounding program appends each line this
//! module hands out to the file before the next operation, reads the file's
//! lines back on opening, and replaces the file on compaction. The index
//! invariant of `index_ok` is what §reading relies on: an offset found in
//! the index always names a `Put` of that key holding the current value.

use vstd::prelude::*;
use vstd::hash_map::StringHashMap;
use crate::codec::Command;
use crate::codec::CommandView;
use crate::codec::Pair;
use crate::codec::encode_cmd;
use crate::codec::parse_cmd;
use crate::codec::lemma_parse_encode_roundtrip;
use crate::codec::lemma_encode_line_free_of_newline;
use crate::KvError;

verus! {

/// How many log records are allowed before the surrounding program is told
/// to compact the log.
pub const LOG_THRESHOLD: usize = 500;

/// The observable contents of a store whose log holds the given commands:
/// the last `Put` of each key wins, and a later `Remove` erases the key.
pub open spec fn log_state(lv: Seq<CommandView>) -> Map<Seq<char>, Seq<char>>
    decreases lv.len(),
{
    if lv.len() == 0 {
        Map::<Seq<char>, Seq<char>>::empty()
    } else {
        let prev = log_state(lv.drop_last());
        match lv.last() {
            CommandView::Put { k, v } => prev.insert(k, v),
            CommandView::Remove { k } => prev.remove(k),
        }
    }
}

/// Appending one command changes the observable contents pointwise.
pub proof fn lemma_log_state_push(lv: Seq<CommandView>, c: CommandView)
    ensures
        log_state(lv.push(c)) == (match c {
            CommandView::Put { k, v } => log_state(lv).insert(k, v),
            CommandView::Remove { k } => log_state(lv).remove(k),
        }),
{
    assert(lv.push(c).drop_last() =~= lv);
    assert(lv.push(c).last() == c);
}

/// The commands recorded by a vector of `Command`s, as views.
pub open spec fn cmd_views(s: Seq<Command>) -> Seq<CommandView> {
    s.map_values(|c: Command| c@)
}

/// The index invariant: the index holds exactly the keys the log's
/// contents hold, and maps each to an offset of a `Put` of that key whose
/// value is the current one.
pub open spec fn index_ok(lv: Seq<CommandView>, idx: Map<Seq<char>, usize>) -> bool {
    let st = log_state(lv);
    &&& forall|k: Seq<char>| #[trigger] st.contains_key(k) ==> idx.contains_key(k)
    &&& forall|k: Seq<char>|
        #[trigger] idx.contains_key(k) ==> st.contains_key(k) && idx[k] < lv.len()
            && lv[idx[k] as int] == (CommandView::Put { k: k, v: st[k] })
}

/// Appending a command and updating the index as the command says keeps
/// the index invariant.
proof fn lemma_index_step(
    lv: Seq<CommandView>,
    idx: Map<Seq<char>, usize>,
    c: CommandView,
    idx2: Map<Seq<char>, usize>,
)
    requires
        index_ok(lv, idx),
        lv.len() <= usize::MAX,
        idx2 == (match c {
            CommandView::Put { k, .. } => idx.insert(k, lv.len() as usize),
            CommandView::Remove { k } => idx.remove(k),
        }),
    ensures
        index_ok(lv.push(c), idx2),
{
    lemma_log_state_push(lv, c);
    let lv2 = lv.push(c);
    let st = log_state(lv);
    let st2 = log_state(lv2);
    match c {
        CommandView::Put { k, v } => {
            assert forall|k2: Seq<char>| #[trigger] st2.contains_key(k2) implies idx2.contains_key(
                k2,
            ) by {
                if k2 != k {
                    assert(st.contains_key(k2));
                }
            }
            assert forall|k2: Seq<char>| #[trigger] idx2.contains_key(k2) implies st2.contains_key(
                k2,
            ) && idx2[k2] < lv2.len() && lv2[idx2[k2] as int] == (CommandView::Put {
                k: k2,
                v: st2[k2],
            }) by {
                if k2 == k {
                    assert(lv2[lv.len() as int] == c);
                } else {
                    assert(idx.contains_key(k2));
                    assert(lv2[idx[k2] as int] == lv[idx[k2] as int]);
                }
            }
        },
        CommandView::Remove { k } => {
            assert forall|k2: Seq<char>| #[trigger] st2.contains_key(k2) implies idx2.contains_key(
                k2,
            ) by {
                assert(st.contains_key(k2));
            }
            assert forall|k2: Seq<char>| #[trigger] idx2.contains_key(k2) implies st2.contains_key(
                k2,
            ) && idx2[k2] < lv2.len() && lv2[idx2[k2] as int] == (CommandView::Put {
                k: k2,
                v: st2[k2],
            }) by {
                assert(idx.contains_key(k2));
                assert(lv2[idx[k2] as int] == lv[idx[k2] as int]);
            }
        },
    }
}

/// The log-structured store: the in-memory mirror of the command log, the
/// index over it, and the compaction threshold.
pub struct KvStore {
    index: StringHashMap<usize>,
    log: Vec<Command>,
    log_threshold: usize,
}

impl KvStore {
    /// The commands of the log, in file order.
    pub closed spec fn log_view(self) -> Seq<CommandView> {
        self.log@.map_values(|c: Command| c@)
    }

    /// The observable contents of the store.
    pub open spec fn state(self) -> Map<Seq<char>, Seq<char>> {
        log_state(self.log_view())
    }

    /// The compaction threshold.
    pub closed spec fn threshold(self) -> usize {
        self.log_threshold
    }

    /// The store's invariant: the index matches the log.
    pub closed spec fn wf(self) -> bool {
        index_ok(self.log_view(), self.index@)
    }

    /// An empty store.
    pub fn new() -> (s: KvStore)
        ensures
            s.wf(),
            s.log_view() == Seq::<CommandView>::empty(),
            s.threshold() == LOG_THRESHOLD,
    {
        let s = KvStore {
            index: StringHashMap::new(),
            log: Vec::new(),
            log_threshold: LOG_THRESHOLD,
        };
        proof {
            assert(s.log_view() =~= Seq::<CommandView>::empty());
        }
        s
    }

    /// Rebuild a store from the lines of its log file, in file order and
    /// without their terminating newlines. Fails exactly when some line is
    /// not a record: the log is then corrupt.
    pub fn open(lines: &Vec<String>) -> (r: Result<KvStore, KvError>)
        ensures
            match r {
                Ok(s) => {
                    &&& s.wf()
                    &&& s.threshold() == LOG_THRESHOLD
                    &&& s.log_view().len() == lines@.len()
                    &&& forall|i: int|
                        0 <= i < lines@.len() ==> parse_cmd(lines@[i]@) == Some(s.log_view()[i])
                },
                Err(e) => {
                    &&& e == KvError::Corruption
                    &&& exists|i: int| 0 <= i < lines@.len() && parse_cmd(lines@[i]@) is None
                },
            },
    {
        let mut store = KvStore::new();
        let n = lines.len();
        let mut i: usize = 0;
        while i < n
            invariant
                n == lines@.len(),
                i <= n,
                store.wf(),
                store.threshold() == LOG_THRESHOLD,
                store.log_view().len() == i,
                forall|j: int| 0 <= j < i ==> parse_cmd(lines@[j]@) == Some(store.log_view()[j]),
            decreases n - i,
        {
            match Command::from_line(lines[i].as_str()) {
                Some(cmd) => {
                    let ghost lv = store.log_view();
                    let ghost idx = store.index@;
                    let off = store.log.len();
                    match &cmd {
                        Command::Put(p) => {
                            store.index.insert(p.key().clone(), off);
                        },
                        Command::Remove(key) => {
                            store.index.remove(key.as_str());
                        },
                    }
                    store.log.push(cmd);
                    proof {
                        assert(store.log_view() =~= lv.push(store.log_view().last()));
                        lemma_index_step(lv, idx, store.log_view().last(), store.index@);
                    }
                },
                None => {
                    return Err(KvError::Corruption);
                },
            }
            i = i + 1;
        }
        Ok(store)
    }

    /// Record the assignment of `v` to `k` and return the log line that
    /// records it, for the caller to append to the file.
    pub fn set(&mut self, k: String, v: String) -> (line: String)
        requires
            old(self).wf(),
        ensures
            final(self).wf(),
            final(self).threshold() == old(self).threshold(),
            final(self).log_view() == old(self).log_view().push(
                CommandView::Put { k: k@, v: v@ },
            ),
            final(self).state() == old(self).state().insert(k@, v@),
            line@ == encode_cmd(CommandView::Put { k: k@, v: v@ }),
            !line@.contains('\n'),
    {
        let ghost lv = self.log_view();
        let ghost idx = self.index@;
        let off = self.log.len();
        let cmd = Command::Put(Pair::new(k.clone(), v));
        let line = cmd.to_line();
        self.index.insert(k, off);
        self.log.push(cmd);
        proof {
            assert(self.log_view() =~= lv.push(CommandView::Put { k: k@, v: v@ }));
            lemma_index_step(lv, idx, CommandView::Put { k: k@, v: v@ }, self.index@);
            lemma_log_state_push(lv, CommandView::Put { k: k@, v: v@ });
            lemma_encode_line_free_of_newline(CommandView::Put { k: k@, v: v@ });
        }
        line
    }

    /// The value last assigned to `k`, or `None` where `k` is absent or
    /// removed. The index invariant rules the corrupt-index reading error
    /// out, so the call always succeeds.
    pub fn get(&self, k: String) -> (r: Result<Option<String>, KvError>)
        requires
            self.wf(),
        ensures
            match r {
                Ok(Some(v)) => self.state().contains_key(k@) && v@ == self.state()[k@],
                Ok(None) => !self.state().contains_key(k@),
                Err(_) => false,
            },
    {
        match self.index.get(k.as_str()) {
            Some(off) => {
                let off = *off;
                proof {
                    assert(self.log_view()[off as int] == (CommandView::Put {
                        k: k@,
                        v: self.state()[k@],
                    }));
                }
                match &self.log[off] {
                    Command::Put(p) => Ok(Some(p.value().clone())),
                    Command::Remove(_) => {
                        proof {
                            assert(false);
                        }
                        Err(KvError::Corruption)
                    },
                }
            },
            None => Ok(None),
        }
    }

    /// Record the removal of `k` and return the log line that records it,
    /// for the caller to append to the file. Fails with `KeyNotFound`
    /// exactly when `k` is absent, leaving the store unchanged.
    pub fn remove(&mut self, k: String) -> (r: Result<String, KvError>)
        requires
            old(self).wf(),
        ensures
            final(self).wf(),
            final(self).threshold() == old(self).threshold(),
            match r {
                Ok(line) => {
                    &&& old(self).state().contains_key(k@)
                    &&& final(self).log_view() == old(self).log_view().push(
                        CommandView::Remove { k: k@ },
                    )
                    &&& final(self).state() == old(self).state().remove(k@)
                    &&& line@ == encode_cmd(CommandView::Remove { k: k@ })
                    &&& !line@.contains('\n')
                },
                Err(e) => {
                    &&& e == KvError::KeyNotFound
                    &&& !old(self).state().contains_key(k@)
                    &&& *final(self) == *old(self)
                },
            },
    {
        if self.index.contains_key(k.as_str()) {
            let ghost lv = self.log_view();
            let ghost idx = self.index@;
            let cmd = Command::Remove(k.clone());
            let line = cmd.to_line();
            self.index.remove(k.as_str());
            self.log.push(cmd);
            proof {
                assert(old(self).log.len() == lv.len());
                assert(self.log_view() =~= lv.push(CommandView::Remove { k: k@ }));
                lemma_index_step(lv, idx, CommandView::Remove { k: k@ }, self.index@);
                lemma_log_state_push(lv, CommandView::Remove { k: k@ });
                lemma_encode_line_free_of_newline(CommandView::Remove { k: k@ });
            }
            Ok(line)
        } else {
            Err(KvError::KeyNotFound)
        }
    }

    /// How many records the log holds.
    pub fn log_len(&self) -> (n: usize)
        ensures
            n == self.log_view().len(),
    {
        self.log.len()
    }

    /// How many keys the store holds: the size of the index, which equals
    /// the number of keys set and not since removed.
    pub fn index_len(&self) -> (n: usize)
        requires
            self.wf(),
        ensures
            n == self.state().dom().len(),
    {
        let n = self.index.len();
        proof {
            assert(self.index@.dom() =~= self.state().dom());
        }
        n
    }

    /// Rewrite the log so that it holds exactly one `Put` per present key
    /// and nothing else, keeping the observable contents, and rebuild the
    /// index over the new log. Returns the lines of the new log file, for
    /// the caller to write to a fresh file and move over the old one.
    pub fn compact(&mut self) -> (lines: Vec<String>)
        requires
            old(self).wf(),
        ensures
            final(self).wf(),
            final(self).threshold() == old(self).threshold(),
            final(self).state() == old(self).state(),
            forall|i: int|
                0 <= i < final(self).log_view().len() ==> final(self).log_view()[i] is Put,
            forall|i: int, j: int|
                0 <= i < j < final(self).log_view().len() ==> final(self).log_view()[i].key()
                    != final(self).log_view()[j].key(),
            final(self).log_view().len() == old(self).state().dom().len(),
            lines@.len() == final(self).log_view().len(),
            forall|i: int|
                0 <= i < lines@.len() ==> lines@[i]@ == encode_cmd(final(self).log_view()[i])
                    && !lines@[i]@.contains('\n'),
    {
        let ghost lv = self.log_view();
        let ghost st = self.state();
        let ghost idx = self.index@;
        let mut new_log: Vec<Command> = Vec::new();
        let mut new_index: StringHashMap<usize> = StringHashMap::new();
        let mut lines: Vec<String> = Vec::new();
        let n = self.log.len();
        let mut o: usize = 0;
        while o < n
            invariant
                self.wf(),
                lv == self.log_view(),
                st == self.state(),
                idx == self.index@,
                n == lv.len(),
                o <= n,
                cmd_views(new_log@).len() <= o,
                forall|j: int|
                    0 <= j < new_log@.len() ==> #[trigger] cmd_views(new_log@)[j] is Put,
                forall|j1: int, j2: int|
                    0 <= j1 < j2 < new_log@.len() ==> cmd_views(new_log@)[j1].key()
                        != cmd_views(new_log@)[j2].key(),
                forall|j: int|
                    #![trigger cmd_views(new_log@)[j]]
                    0 <= j < new_log@.len() ==> {
                        let nl = cmd_views(new_log@);
                        &&& idx.contains_key(nl[j].key())
                        &&& idx[nl[j].key()] < o
                        &&& nl[j] == (CommandView::Put { k: nl[j].key(), v: st[nl[j].key()] })
                        &&& new_index@.contains_key(nl[j].key())
                        &&& new_index@[nl[j].key()] == j
                    },
                forall|k: Seq<char>|
                    #[trigger] new_index@.contains_key(k) <==> (idx.contains_key(k) && idx[k]
                        < o),
                forall|k: Seq<char>|
                    #[trigger] new_index@.contains_key(k) ==> new_index@[k] < new_log@.len()
                        && cmd_views(new_log@)[new_index@[k] as int]
                        == (CommandView::Put { k: k, v: st[k] }),
                lines@.len() == new_log@.len(),
                forall|i: int|
                    0 <= i < lines@.len() ==> lines@[i]@ == encode_cmd(
                        #[trigger] cmd_views(new_log@)[i],
                    ),
            decreases n - o,
        {
            let ghost nl = cmd_views(new_log@);
            let mut keep = false;
            match &self.log[o] {
                Command::Put(p) => {
                    match self.index.get(p.key().as_str()) {
                        Some(ioff) => {
                            if *ioff == o {
                                keep = true;
                            }
                        },
                        None => {},
                    }
                },
                Command::Remove(_) => {},
            }
            proof {
                assert(lv[o as int] == self.log@[o as int]@);
            }
            if keep {
                let cmd = self.log[o].clone();
                proof {
                    let k = cmd@.key();
                    assert(idx.contains_key(k) && idx[k] == o);
                    assert(lv[o as int] == (CommandView::Put { k: k, v: st[k] }));
                    assert(cmd@ == (CommandView::Put { k: k, v: st[k] }));
                }
                let pos = new_log.len();
                match &cmd {
                    Command::Put(p) => {
                        new_index.insert(p.key().clone(), pos);
                    },
                    Command::Remove(_) => {
                        proof {
                            assert(false);
                        }
                    },
                }
                lines.push(cmd.to_line());
                new_log.push(cmd);
                proof {
                    let nl2 = cmd_views(new_log@);
                    let k = nl2[pos as int].key();
                    assert(nl2 =~= nl.push(CommandView::Put { k: k, v: st[k] }));
                    assert forall|j1: int, j2: int|
                        0 <= j1 < j2 < new_log@.len() implies nl2[j1].key() != nl2[j2].key() by {
                        if j2 == pos as int {
                            assert(idx[nl2[j1].key()] < o);
                        }
                    }
                    assert forall|k2: Seq<char>| #[trigger] new_index@.contains_key(k2)
                        <==> (idx.contains_key(k2) && idx[k2] < o + 1) by {
                        if k2 != k && idx.contains_key(k2) && idx[k2] == o {
                            assert(lv[o as int] == (CommandView::Put { k: k2, v: st[k2] }));
                        }
                    }
                }
            } else {
                proof {
                    assert forall|k2: Seq<char>| #[trigger] new_index@.contains_key(k2)
                        <==> (idx.contains_key(k2) && idx[k2] < o + 1) by {
                        if idx.contains_key(k2) && idx[k2] == o {
                            assert(lv[o as int] == (CommandView::Put { k: k2, v: st[k2] }));
                            match self.log@[o as int] {
                                Command::Put(p) => {
                                    assert(p@.k == k2);
                                    assert(idx.contains_key(p@.k) && idx[p@.k] == o);
                                },
                                Command::Remove(_) => {},
                            }
                        }
                    }
                }
            }
            o = o + 1;
        }
        self.log = new_log;
        self.index = new_index;
        proof {
            let nl = self.log_view();
            lemma_distinct_puts_state(nl);
            assert forall|i: int| 0 <= i < lines@.len() implies !lines@[i]@.contains('\n') by {
                lemma_encode_line_free_of_newline(nl[i]);
            }
            let st2 = log_state(nl);
            assert forall|k: Seq<char>| #[trigger] st2.contains_key(k) implies st.contains_key(
                k,
            ) && st2[k] == st[k] by {
                let i = choose|i: int| 0 <= i < nl.len() && nl[i].key() == k;
                assert(self.index@.contains_key(k));
            }
            assert forall|k: Seq<char>| #[trigger] st.contains_key(k) implies st2.contains_key(
                k,
            ) by {
                assert(idx.contains_key(k));
                assert(self.index@.contains_key(k));
                assert(nl[self.index@[k] as int] == (CommandView::Put { k: k, v: st[k] }));
                assert(nl[self.index@[k] as int].key() == k);
            }
            assert(st2 =~= st);
            assert(st2.dom() =~= st.dom());
            assert forall|k: Seq<char>| #[trigger] self.index@.contains_key(k) implies
                st2.contains_key(k) && self.index@[k] < nl.len() && nl[self.index@[k] as int]
                    == (CommandView::Put { k: k, v: st2[k] }) by {
                assert(nl[self.index@[k] as int].key() == k);
            }
        }
        lines
    }

    /// Whether the log has grown past the compaction threshold.
    pub fn needs_compaction(&self) -> (r: bool)
        ensures
            r == (self.log_view().len() > self.threshold()),
    {
        self.log.len() > self.log_threshold
    }
}

impl crate::engine::KvsEngine for KvStore {
    open spec fn model(&self) -> Map<Seq<char>, Seq<char>> {
        log_state(self.log_view())
    }

    open spec fn models(&self) -> bool {
        true
    }

    open spec fn ready(&self) -> bool {
        self.wf()
    }

    fn set(&mut self, k: String, v: String) -> (r: Result<(), KvError>) {
        let _line = KvStore::set(self, k, v);
        Ok(())
    }

    fn get(&self, k: String) -> (r: Result<Option<String>, KvError>) {
        KvStore::get(self, k)
    }

    fn remove(&mut self, k: String) -> (r: Result<(), KvError>) {
        match KvStore::remove(self, k) {
            Ok(_line) => Ok(()),
            Err(e) => Err(e),
        }
    }
}

/// A log of `Put` commands with pairwise-distinct keys — what writers of
/// disjoint keys leave behind, in whatever order they were serialized —
/// yields contents where every written value is readable and the number
/// of keys equals the number of writers.
pub proof fn lemma_distinct_puts_state(lv: Seq<CommandView>)
    requires
        forall|i: int| 0 <= i < lv.len() ==> #[trigger] lv[i] is Put,
        forall|i: int, j: int| 0 <= i < j < lv.len() ==> lv[i].key() != lv[j].key(),
    ensures
        log_state(lv).dom().finite(),
        log_state(lv).dom().len() == lv.len(),
        forall|i: int|
            0 <= i < lv.len() ==> log_state(lv).contains_key(#[trigger] lv[i].key())
                && log_state(lv)[lv[i].key()] == lv[i]->Put_v,
        forall|k: Seq<char>|
            #[trigger] log_state(lv).contains_key(k) ==> exists|i: int|
                0 <= i < lv.len() && lv[i].key() == k,
    decreases lv.len(),
{
    broadcast use vstd::set::group_set_axioms;

    if lv.len() == 0 {
    } else {
        let prefix = lv.drop_last();
        let last = lv.last();
        lemma_distinct_puts_state(prefix);
        assert(prefix.push(last) =~= lv);
        lemma_log_state_push(prefix, last);
        let stp = log_state(prefix);
        let st = log_state(lv);
        let k = last.key();
        assert(st == stp.insert(k, last->Put_v));
        if stp.contains_key(k) {
            let i = choose|i: int| 0 <= i < prefix.len() && prefix[i].key() == k;
            assert(lv[i].key() == lv[lv.len() - 1].key());
            assert(false);
        }
        assert(st.dom() =~= stp.dom().insert(k));
        assert forall|i: int| 0 <= i < lv.len() implies st.contains_key(#[trigger] lv[i].key())
            && st[lv[i].key()] == lv[i]->Put_v by {
            if i < lv.len() - 1 {
                assert(prefix[i] == lv[i]);
                assert(lv[i].key() != k);
            }
        }
        assert forall|k2: Seq<char>| #[trigger] st.contains_key(k2) implies exists|i: int|
            0 <= i < lv.len() && lv[i].key() == k2 by {
            if k2 == k {
                assert(lv[lv.len() - 1].key() == k2);
            } else {
                assert(stp.contains_key(k2));
                let i = choose|i: int| 0 <= i < prefix.len() && prefix[i].key() == k2;
                assert(lv[i].key() == k2);
            }
        }
    }
}

/// Setting a key and then reading it yields the value just written.
pub proof fn lemma_set_then_get(lv: Seq<CommandView>, k: Seq<char>, v: Seq<char>)
    ensures
        log_state(lv.push(CommandView::Put { k, v })).contains_key(k),
        log_state(lv.push(CommandView::Put { k, v }))[k] == v,
{
    lemma_log_state_push(lv, CommandView::Put { k, v });
}

/// After a key is removed it is absent, whatever was set before, so a
/// second removal of the same key reports `KeyNotFound` under `remove`'s
/// contract.
pub proof fn lemma_remove_makes_absent(lv: Seq<CommandView>, k: Seq<char>)
    ensures
        !log_state(lv.push(CommandView::Remove { k })).contains_key(k),
{
    lemma_log_state_push(lv, CommandView::Remove { k });
}

/// Whether some command of the log concerns the key.
pub open spec fn has_cmd_for(lv: Seq<CommandView>, k: Seq<char>) -> bool
    decreases lv.len(),
{
    if lv.len() == 0 {
        false
    } else if lv.last().key() == k {
        true
    } else {
        has_cmd_for(lv.drop_last(), k)
    }
}

/// The position of the last command of the log that concerns the key.
pub open spec fn last_cmd_for(lv: Seq<CommandView>, k: Seq<char>) -> int
    decreases lv.len(),
{
    if lv.len() == 0 {
        -1
    } else if lv.last().key() == k {
        lv.len() - 1
    } else {
        last_cmd_for(lv.drop_last(), k)
    }
}

/// Last write wins: after any interleaving of writes and removals, a key
/// reads as the value of the last `Put` of it, and as absent where it was
/// never written or a `Remove` of it came last.
pub proof fn lemma_last_write_wins(lv: Seq<CommandView>, k: Seq<char>)
    ensures
        !has_cmd_for(lv, k) ==> !log_state(lv).contains_key(k),
        has_cmd_for(lv, k) ==> {
            let j = last_cmd_for(lv, k);
            &&& 0 <= j < lv.len()
            &&& lv[j].key() == k
            &&& match lv[j] {
                CommandView::Put { v, .. } => log_state(lv).contains_key(k) && log_state(lv)[k]
                    == v,
                CommandView::Remove { .. } => !log_state(lv).contains_key(k),
            }
        },
    decreases lv.len(),
{
    if lv.len() == 0 {
    } else {
        let prefix = lv.drop_last();
        let last = lv.last();
        lemma_last_write_wins(prefix, k);
        assert(prefix.push(last) =~= lv);
        lemma_log_state_push(prefix, last);
        if last.key() == k {
            assert(last_cmd_for(lv, k) == lv.len() - 1);
        } else {
            assert(has_cmd_for(lv, k) == has_cmd_for(prefix, k));
            if has_cmd_for(prefix, k) {
                let j = last_cmd_for(prefix, k);
                assert(prefix[j] == lv[j]);
            }
        }
    }
}

/// Every line the store's operations hand out parses as a record, so
/// `open` on the lines of a faithfully kept log file never reports
/// corruption.
pub proof fn lemma_encoded_log_reopens(lv: Seq<CommandView>)
    ensures
        forall|i: int| 0 <= i < lv.len() ==> parse_cmd(encode_cmd(#[trigger] lv[i])) == Some(lv[i]),
{
    assert forall|i: int| 0 <= i < lv.len() implies parse_cmd(encode_cmd(#[trigger] lv[i]))
        == Some(lv[i]) by {
        lemma_parse_encode_roundtrip(lv[i]);
    }
}

/// Replaying the encoded log parses back to the same commands, so a store
/// reopened from the lines its operations handed out reads the same: every
/// observable `get` is unchanged across close and reopen.
pub proof fn lemma_reopen_preserves_state(lv: Seq<CommandView>, lv2: Seq<CommandView>)
    requires
        lv2.len() == lv.len(),
        forall|i: int| 0 <= i < lv.len() ==> parse_cmd(encode_cmd(#[trigger] lv[i])) == Some(lv2[i]),
    ensures
        lv2 == lv,
        log_state(lv2) == log_state(lv),
{
    assert forall|i: int| 0 <= i < lv.len() implies lv2[i] == lv[i] by {
        lemma_parse_encode_roundtrip(lv[i]);
    }
    assert(lv2 =~= lv);
}

} // verus!
