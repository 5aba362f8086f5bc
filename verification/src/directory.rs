//! The channel directory: an immutable table from inbound channel identifier
//! to outbound destination identity, loaded once by parsing a delimited
//! configuration string of `channel_id=destination` pairs separated by
//! commas. Malformed pairs (not exactly two fields) are dropped.

use vstd::prelude::*;
use crate::chars::{chars_to_string, str_to_chars, trim_chars, trim_spec};
use crate::matching::matches_at;

verus! {

/// One loaded pair of the directory.
pub struct ChannelMapping {
    pub inbound_channel_id: String,
    pub destination_identity: String,
}

/// The immutable lookup table. Later entries for the same channel override
/// earlier ones, as repeated insertion into a map would.
pub struct Directory {
    pub entries: Vec<ChannelMapping>,
}

/// The map an entry list denotes: entries inserted in order.
pub open spec fn entries_map(es: Seq<ChannelMapping>) -> Map<Seq<char>, Seq<char>>
    decreases es.len(),
{
    if es.len() == 0 {
        Map::empty()
    } else {
        entries_map(es.drop_last()).insert(
            es.last().inbound_channel_id@,
            es.last().destination_identity@,
        )
    }
}

impl View for Directory {
    type V = Map<Seq<char>, Seq<char>>;

    open spec fn view(&self) -> Map<Seq<char>, Seq<char>> {
        entries_map(self.entries@)
    }
}

/// `s` split on the delimiter `d`: always at least one segment, empty
/// segments preserved.
pub open spec fn split_on(s: Seq<char>, d: char) -> Seq<Seq<char>>
    decreases s.len(),
{
    if s.len() == 0 {
        seq![s]
    } else if s[0] == d {
        seq![Seq::<char>::empty()] + split_on(s.drop_first(), d)
    } else {
        let rest = split_on(s.drop_first(), d);
        seq![seq![s[0]] + rest[0]] + rest.drop_first()
    }
}

proof fn lemma_split_len(s: Seq<char>, d: char)
    ensures
        split_on(s, d).len() >= 1,
    decreases s.len(),
{
    if s.len() == 0 {
    } else {
        lemma_split_len(s.drop_first(), d);
    }
}

/// The key/value pair a configuration segment denotes: defined exactly when
/// splitting on `=` yields two fields, both then trimmed.
pub open spec fn segment_entry(seg: Seq<char>) -> Option<(Seq<char>, Seq<char>)> {
    let parts = split_on(seg, '=');
    if parts.len() == 2 {
        Some((trim_spec(parts[0]), trim_spec(parts[1])))
    } else {
        None
    }
}

/// The directory a sequence of configuration segments denotes: well-formed
/// segments inserted in order, malformed ones dropped.
pub open spec fn mappings_of(segs: Seq<Seq<char>>) -> Map<Seq<char>, Seq<char>>
    decreases segs.len(),
{
    if segs.len() == 0 {
        Map::empty()
    } else {
        let m = mappings_of(segs.drop_last());
        match segment_entry(segs.last()) {
            Some(kv) => m.insert(kv.0, kv.1),
            None => m,
        }
    }
}

/// The directory a whole configuration string denotes.
pub open spec fn parse_mappings(s: Seq<char>) -> Map<Seq<char>, Seq<char>> {
    mappings_of(split_on(s, ','))
}

fn eq_chars(a: &Vec<char>, b: &Vec<char>) -> (r: bool)
    ensures
        r == (a@ == b@),
{
    if a.len() != b.len() {
        return false;
    }
    let r = matches_at(a, b, 0);
    proof {
        if r {
            assert(a@.subrange(0, b@.len() as int) =~= a@);
        } else {
            if a@ == b@ {
                assert(a@.subrange(0, b@.len() as int) =~= b@);
            }
        }
    }
    r
}

proof fn lemma_entries_map_found(es: Seq<ChannelMapping>, key: Seq<char>, i: int)
    requires
        0 <= i < es.len(),
        es[i].inbound_channel_id@ == key,
        forall|j: int| i < j < es.len() ==> (#[trigger] es[j].inbound_channel_id@) != key,
    ensures
        entries_map(es).contains_key(key),
        entries_map(es)[key] == es[i].destination_identity@,
    decreases es.len(),
{
    if i == es.len() - 1 {
    } else {
        let pre = es.drop_last();
        assert(forall|j: int|
            i < j < pre.len() ==> (#[trigger] pre[j].inbound_channel_id@) != key);
        lemma_entries_map_found(pre, key, i);
        assert(es.last().inbound_channel_id@ != key);
    }
}

proof fn lemma_entries_map_absent(es: Seq<ChannelMapping>, key: Seq<char>)
    requires
        forall|j: int| 0 <= j < es.len() ==> (#[trigger] es[j].inbound_channel_id@) != key,
    ensures
        !entries_map(es).contains_key(key),
    decreases es.len(),
{
    if es.len() > 0 {
        let pre = es.drop_last();
        assert(forall|j: int|
            0 <= j < pre.len() ==> (#[trigger] pre[j].inbound_channel_id@) != key);
        lemma_entries_map_absent(pre, key);
    }
}

impl Directory {
    /// The empty directory: forwarding disabled for every channel.
    pub fn new() -> (d: Directory)
        ensures
            d@ == Map::<Seq<char>, Seq<char>>::empty(),
    {
        Directory { entries: Vec::new() }
    }

    /// Look up the destination identity for a channel; `None` means the
    /// channel is not forwarded. No error is raised for an absent mapping.
    pub fn resolve(&self, channel_id: &str) -> (r: Option<String>)
        ensures
            r is Some <==> self@.contains_key(channel_id@),
            r matches Some(dest) ==> self@.contains_key(channel_id@) && self@[channel_id@]
                == dest@,
    {
        let key = str_to_chars(channel_id);
        let mut i: usize = self.entries.len();
        while i > 0
            invariant
                i <= self.entries@.len(),
                key@ == channel_id@,
                forall|j: int|
                    i <= j < self.entries@.len() ==> (
                    #[trigger] self.entries@[j].inbound_channel_id@) != channel_id@,
            decreases i,
        {
            i = i - 1;
            let ek = str_to_chars(self.entries[i].inbound_channel_id.as_str());
            if eq_chars(&ek, &key) {
                proof {
                    lemma_entries_map_found(self.entries@, channel_id@, i as int);
                }
                return Some(self.entries[i].destination_identity.clone());
            }
        }
        proof {
            lemma_entries_map_absent(self.entries@, channel_id@);
        }
        None
    }
}

fn split_chars(s: &Vec<char>, d: char) -> (r: Vec<Vec<char>>)
    ensures
        r@.len() == split_on(s@, d).len(),
        forall|j: int| 0 <= j < r@.len() ==> (#[trigger] r@[j]@) == split_on(s@, d)[j],
{
    let ghost target = split_on(s@, d);
    let mut done: Vec<Vec<char>> = Vec::new();
    let ghost mut dv: Seq<Seq<char>> = Seq::empty();
    let mut cur: Vec<char> = Vec::new();
    let mut i: usize = 0;
    proof {
        lemma_split_len(s@, d);
        assert(s@.skip(0) =~= s@);
        assert(Seq::<char>::empty() + target[0] =~= target[0]);
        assert(dv + (seq![Seq::<char>::empty() + target[0]] + target.drop_first()) =~= seq![
            target[0],
        ] + target.drop_first());
        assert(seq![target[0]] + target.drop_first() =~= target);
    }
    while i < s.len()
        invariant
            i <= s@.len(),
            target == split_on(s@, d),
            dv.len() == done@.len(),
            forall|j: int| 0 <= j < dv.len() ==> (#[trigger] done@[j]@) == dv[j],
            target == dv + (seq![cur@ + split_on(s@.skip(i as int), d)[0]] + split_on(
                s@.skip(i as int),
                d,
            ).drop_first()),
        decreases s@.len() - i,
    {
        let ghost tail = s@.skip(i as int);
        let ghost rest = split_on(s@.skip(i + 1), d);
        proof {
            lemma_split_len(s@.skip(i + 1), d);
            assert(tail[0] == s@[i as int]);
            assert(tail.drop_first() =~= s@.skip(i + 1));
        }
        if s[i] == d {
            proof {
                assert(split_on(tail, d) == seq![Seq::<char>::empty()] + rest);
                assert(split_on(tail, d)[0] =~= Seq::<char>::empty());
                assert(cur@ + Seq::<char>::empty() =~= cur@);
                assert((seq![Seq::<char>::empty()] + rest).drop_first() =~= rest);
            }
            done.push(cur);
            proof {
                let prev = dv;
                dv = dv.push(cur@);
                assert(prev + (seq![cur@ + split_on(tail, d)[0]] + split_on(
                    tail,
                    d,
                ).drop_first()) =~= dv + (seq![Seq::<char>::empty() + rest[0]] + rest.drop_first()));
                assert(Seq::<char>::empty() + rest[0] =~= rest[0]);
                assert(dv + (seq![Seq::<char>::empty() + rest[0]] + rest.drop_first()) =~= dv + (
                seq![rest[0]] + rest.drop_first()));
            }
            cur = Vec::new();
        } else {
            proof {
                assert(split_on(tail, d) == seq![seq![tail[0]] + rest[0]] + rest.drop_first());
                assert(cur@ + (seq![s@[i as int]] + rest[0]) =~= cur@.push(s@[i as int]) + rest[0]);
                assert(dv + (seq![cur@ + split_on(tail, d)[0]] + split_on(tail, d).drop_first())
                    =~= dv + (seq![cur@.push(s@[i as int]) + rest[0]] + rest.drop_first()));
            }
            cur.push(s[i]);
        }
        i = i + 1;
    }
    proof {
        let tail = s@.skip(i as int);
        assert(tail.len() == 0);
        assert(split_on(tail, d) == seq![tail]);
        assert(cur@ + tail =~= cur@);
        assert((seq![tail]).drop_first() =~= Seq::<Seq<char>>::empty());
        assert(dv + (seq![cur@ + split_on(tail, d)[0]] + split_on(tail, d).drop_first()) =~= dv
            + seq![cur@]);
    }
    done.push(cur);
    proof {
        assert(forall|j: int|
            0 <= j < dv.len() + 1 ==> (#[trigger] done@[j]@) == (dv + seq![cur@])[j]);
        assert(target =~= dv + seq![cur@]);
    }
    done
}

/// Parse the configuration string into a Directory. Pairs are separated by
/// `,`; key and value by `=` (a destination identity may itself contain
/// colons). A pair without exactly two fields is silently dropped; both
/// fields are trimmed of surrounding whitespace.
pub fn get_channel_mappings(config: &str) -> (d: Directory)
    ensures
        d@ == parse_mappings(config@),
{
    let chars = str_to_chars(config);
    let segs = split_chars(&chars, ',');
    let ghost target = split_on(config@, ',');
    let mut entries: Vec<ChannelMapping> = Vec::new();
    let mut i: usize = 0;
    proof {
        assert(target.subrange(0, 0) =~= Seq::<Seq<char>>::empty());
    }
    while i < segs.len()
        invariant
            i <= segs@.len(),
            segs@.len() == target.len(),
            forall|j: int| 0 <= j < segs@.len() ==> (#[trigger] segs@[j]@) == target[j],
            entries_map(entries@) == mappings_of(target.subrange(0, i as int)),
        decreases segs@.len() - i,
    {
        let parts = split_chars(&segs[i], '=');
        proof {
            assert(target.subrange(0, i + 1).drop_last() =~= target.subrange(0, i as int));
            assert(target.subrange(0, i + 1).last() == target[i as int]);
        }
        if parts.len() == 2 {
            let key = trim_chars(&parts[0]);
            let val = trim_chars(&parts[1]);
            let entry = ChannelMapping {
                inbound_channel_id: chars_to_string(&key),
                destination_identity: chars_to_string(&val),
            };
            let ghost prev = entries@;
            entries.push(entry);
            proof {
                assert(key@ == trim_spec(split_on(target[i as int], '=')[0]));
                assert(val@ == trim_spec(split_on(target[i as int], '=')[1]));
                assert(segment_entry(target[i as int]) == Some((key@, val@)));
                assert(entries@.drop_last() =~= prev);
                assert(entries@.last() == entry);
            }
        } else {
            proof {
                assert(segment_entry(target[i as int]) is None);
            }
        }
        i = i + 1;
    }
    proof {
        assert(target.subrange(0, target.len() as int) =~= target);
    }
    Directory { entries }
}

} // verus!
