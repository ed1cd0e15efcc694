//! The preview mixer: a keyed registry of looping sample players, driven by
//! control messages, that adds the players' samples into each output block.

use vstd::prelude::*;
use rustc_hash::{FxBuildHasher, FxHashMap};

verus! {

/// rustc-hash's `FxBuildHasher`, the hash builder of the player registry
/// (an `FxHashMap`); values of it are only carried, never looked into.
#[verifier::external_type_specification]
#[verifier::external_body]
pub struct ExFxBuildHasher(FxBuildHasher);

/// Identifies one preview sound.
pub type AuxAudioKey = u64;

/// A control message for the mixer.
pub enum AuxMsg {
    /// Play `sample_data` in a loop under `key`. Where `key` already plays,
    /// its samples are replaced and its position is kept.
    PlaySamples16 { key: AuxAudioKey, sample_data: Vec<i16> },
    /// Stop the sound under `key`.
    StopAudio { key: AuxAudioKey },
    /// Stop every sound.
    StopAll,
}

/// A buffer of 16-bit samples and the position of the next one to play.
pub struct SamplePlayer {
    pub samp_data: Vec<i16>,
    pub cursor: usize,
}

impl SamplePlayer {
    /// The position lies inside a buffer that holds samples.
    pub open spec fn wf(&self) -> bool {
        self.samp_data@.len() > 0 ==> self.cursor < self.samp_data@.len()
    }

    /// A player at the start of `samp_data`.
    pub fn new(samp_data: Vec<i16>) -> (r: Self)
        ensures
            r.samp_data == samp_data,
            r.cursor == 0,
            r.wf(),
    {
        SamplePlayer { samp_data, cursor: 0 }
    }
}

/// How many samples `p` adds into a block of `n`: up to the end of its
/// buffer, none where the buffer is empty.
pub open spec fn rendered_len(p: SamplePlayer, n: int) -> int {
    let rest = p.samp_data@.len() - p.cursor;
    if p.samp_data@.len() == 0 {
        0
    } else if rest < n {
        rest
    } else {
        n
    }
}

/// `x` clamped to the range of `i32`.
pub open spec fn clamp_i32(x: int) -> i32 {
    if x > i32::MAX {
        i32::MAX
    } else if x < i32::MIN {
        i32::MIN
    } else {
        x as i32
    }
}

/// The block `acc` with the samples of `p` added in.
pub open spec fn add_player(acc: Seq<i32>, p: SamplePlayer) -> Seq<i32> {
    Seq::new(
        acc.len(),
        |j: int|
            if j < rendered_len(p, acc.len() as int) {
                clamp_i32(acc[j] + p.samp_data@[p.cursor + j])
            } else {
                acc[j]
            },
    )
}

/// `p` after it played into a block of `n`: the position moves on by what
/// was played and wraps at the end of the buffer.
pub open spec fn advanced(p: SamplePlayer, n: int) -> SamplePlayer {
    if p.samp_data@.len() == 0 {
        p
    } else {
        SamplePlayer {
            samp_data: p.samp_data,
            cursor: ((p.cursor as int + rendered_len(p, n)) % (p.samp_data@.len() as int)) as usize,
        }
    }
}

/// `p` with its buffer replaced by `data`; the position is kept, wrapped to
/// the new buffer.
pub open spec fn replaced(p: SamplePlayer, data: Vec<i16>) -> SamplePlayer {
    SamplePlayer {
        samp_data: data,
        cursor: if data@.len() > 0 {
            (p.cursor as int % (data@.len() as int)) as usize
        } else {
            p.cursor
        },
    }
}

/// The players after a control message.
pub open spec fn applied(m: Map<AuxAudioKey, SamplePlayer>, msg: AuxMsg) -> Map<
    AuxAudioKey,
    SamplePlayer,
> {
    match msg {
        AuxMsg::PlaySamples16 { key, sample_data } => if m.contains_key(key) {
            m.insert(key, replaced(m[key], sample_data))
        } else {
            m.insert(key, SamplePlayer { samp_data: sample_data, cursor: 0 })
        },
        AuxMsg::StopAudio { key } => m.remove(key),
        AuxMsg::StopAll => Map::empty(),
    }
}

/// The block of `n` that the players under `ks` make when added in that
/// order to silence.
pub open spec fn mixed(m: Map<AuxAudioKey, SamplePlayer>, ks: Seq<AuxAudioKey>, n: int) -> Seq<
    i32,
>
    decreases ks.len(),
{
    if ks.len() == 0 {
        Seq::new(n as nat, |j: int| 0i32)
    } else {
        add_player(mixed(m, ks.drop_last(), n), m[ks.last()])
    }
}

/// Adds the samples of `p` into `out`, then moves `p` on.
pub fn mix_player(p: &mut SamplePlayer, out: &mut Vec<i32>)
    requires
        old(p).wf(),
    ensures
        final(out)@ == add_player(old(out)@, *old(p)),
        *final(p) == advanced(*old(p), old(out)@.len() as int),
        final(p).wf(),
{
    let len = p.samp_data.len();
    if len == 0 {
        assert(out@ =~= add_player(old(out)@, *old(p)));
        return;
    }
    let n = out.len();
    let rest = len - p.cursor;
    let count = if rest < n {
        rest
    } else {
        n
    };
    let ghost acc = out@;
    let mut j: usize = 0;
    while j < count
        invariant
            out@.len() == n,
            acc.len() == n,
            len == p.samp_data@.len(),
            p.cursor < len,
            count == rendered_len(*p, n as int),
            count <= n,
            p.cursor + count <= len,
            j <= count,
            forall|k: int| 0 <= k < j ==> out@[k] == clamp_i32(acc[k] + p.samp_data@[p.cursor + k]),
            forall|k: int| j <= k < n ==> out@[k] == acc[k],
        decreases count - j,
    {
        let v = out[j] as i64 + p.samp_data[p.cursor + j] as i64;
        let c: i32 = if v > i32::MAX as i64 {
            i32::MAX
        } else if v < i32::MIN as i64 {
            i32::MIN
        } else {
            v as i32
        };
        out.set(j, c);
        j = j + 1;
    }
    assert(out@ =~= add_player(acc, *old(p)));
    p.cursor = (p.cursor + count) % len;
}

/// Relies on `HashMap::insert` (the registry is rustc-hash's `FxHashMap`, a
/// std `HashMap` with Fx hashing): `k` maps to `v` afterwards, the other keys
/// are untouched.
#[verifier::external_body]
fn registry_insert(m: &mut FxHashMap<AuxAudioKey, SamplePlayer>, k: AuxAudioKey, v: SamplePlayer)
    ensures
        final(m)@ == old(m)@.insert(k, v),
{
    m.insert(k, v);
}

/// Relies on `HashMap::remove`: takes out the player under `k`, if any.
#[verifier::external_body]
fn registry_remove(m: &mut FxHashMap<AuxAudioKey, SamplePlayer>, k: AuxAudioKey) -> (r: Option<
    SamplePlayer,
>)
    ensures
        final(m)@ == old(m)@.remove(k),
        r == (if old(m)@.contains_key(k) {
            Some(old(m)@[k])
        } else {
            None
        }),
{
    m.remove(&k)
}

/// Relies on `HashMap::keys`: each key once, in the order the map is walked.
#[verifier::external_body]
fn registry_keys(m: &FxHashMap<AuxAudioKey, SamplePlayer>) -> (r: Vec<AuxAudioKey>)
    ensures
        r@.no_duplicates(),
        r@.to_set() == m@.dom(),
{
    m.keys().copied().collect()
}

/// Relies on `HashMap::get`: the position of the player under `k`, if any.
#[verifier::external_body]
fn registry_cursor(m: &FxHashMap<AuxAudioKey, SamplePlayer>, k: AuxAudioKey) -> (r: Option<usize>)
    ensures
        r == (if m@.contains_key(k) {
            Some(m@[k].cursor)
        } else {
            None
        }),
{
    m.get(&k).map(|p| p.cursor)
}

/// The players after one optional control message.
pub open spec fn applied_opt(m: Map<AuxAudioKey, SamplePlayer>, msg: Option<AuxMsg>) -> Map<
    AuxAudioKey,
    SamplePlayer,
> {
    match msg {
        Some(msg) => applied(m, msg),
        None => m,
    }
}

/// Every player of `m` is well formed.
pub open spec fn players_wf(m: Map<AuxAudioKey, SamplePlayer>) -> bool {
    forall|k: AuxAudioKey| #[trigger] m.contains_key(k) ==> m[k].wf()
}

/// The mixer of preview sounds: the players that sound, each under its key.
pub struct AuxMixer {
    playing: FxHashMap<AuxAudioKey, SamplePlayer>,
}

impl View for AuxMixer {
    type V = Map<AuxAudioKey, SamplePlayer>;

    closed spec fn view(&self) -> Map<AuxAudioKey, SamplePlayer> {
        self.playing@
    }
}

impl AuxMixer {
    /// Each player's position lies inside its buffer.
    pub open spec fn wf(&self) -> bool {
        players_wf(self@)
    }

    /// A mixer with nothing playing.
    pub fn new() -> (r: Self)
        ensures
            r@ == Map::<AuxAudioKey, SamplePlayer>::empty(),
            r.wf(),
    {
        AuxMixer { playing: FxHashMap::default() }
    }

    /// The position of the sound under `key`, if one plays.
    pub fn cursor_of(&self, key: AuxAudioKey) -> (r: Option<usize>)
        ensures
            r == (if self@.contains_key(key) {
                Some(self@[key].cursor)
            } else {
                None
            }),
    {
        registry_cursor(&self.playing, key)
    }

    /// Whether a sound plays under `key`.
    pub fn is_playing(&self, key: AuxAudioKey) -> (r: bool)
        ensures
            r == self@.contains_key(key),
    {
        self.cursor_of(key).is_some()
    }

    /// Carries out one control message.
    pub fn apply(&mut self, msg: AuxMsg)
        requires
            old(self).wf(),
        ensures
            final(self)@ == applied(old(self)@, msg),
            final(self).wf(),
    {
        match msg {
            AuxMsg::PlaySamples16 { key, sample_data } => {
                match registry_remove(&mut self.playing, key) {
                    Some(mut p) => {
                        let len = sample_data.len();
                        if len > 0 {
                            p.cursor = p.cursor % len;
                        }
                        p.samp_data = sample_data;
                        registry_insert(&mut self.playing, key, p);
                        assert(self@ =~= old(self)@.insert(key, replaced(old(self)@[key], sample_data)));
                    },
                    None => {
                        registry_insert(&mut self.playing, key, SamplePlayer::new(sample_data));
                        assert(self@ =~= old(self)@.insert(
                            key,
                            SamplePlayer { samp_data: sample_data, cursor: 0 },
                        ));
                    },
                }
            },
            AuxMsg::StopAudio { key } => {
                let _ = registry_remove(&mut self.playing, key);
            },
            AuxMsg::StopAll => {
                self.playing.clear();
            },
        }
    }

    /// One tick of the output callback: silences `out`, carries out `msg`
    /// (at most one message per tick), then adds each player's samples into
    /// `out` and moves it on. Players are added in the order the registry is
    /// walked, which only matters where a sum leaves the range of `i32`.
    pub fn render(&mut self, msg: Option<AuxMsg>, out: &mut Vec<i32>)
        requires
            old(self).wf(),
        ensures
            final(self).wf(),
            final(out)@.len() == old(out)@.len(),
            final(self)@ == applied_opt(old(self)@, msg).map_values(
                |p: SamplePlayer| advanced(p, old(out)@.len() as int),
            ),
            exists|ks: Seq<AuxAudioKey>|
                {
                    &&& ks.no_duplicates()
                    &&& ks.to_set() == applied_opt(old(self)@, msg).dom()
                    &&& final(out)@ == mixed(
                        applied_opt(old(self)@, msg),
                        ks,
                        old(out)@.len() as int,
                    )
                },
    {
        let n = out.len();
        let mut z: usize = 0;
        while z < n
            invariant
                out@.len() == n,
                z <= n,
                forall|k: int| 0 <= k < z ==> out@[k] == 0i32,
            decreases n - z,
        {
            out.set(z, 0);
            z = z + 1;
        }
        if let Some(m) = msg {
            self.apply(m);
        }
        let ghost m = self@;
        assert(m == applied_opt(old(self)@, msg));
        let keys = registry_keys(&self.playing);
        assert(out@ =~= mixed(m, keys@.take(0), n as int));
        let mut i: usize = 0;
        while i < keys.len()
            invariant
                out@.len() == n,
                i <= keys@.len(),
                keys@.no_duplicates(),
                keys@.to_set() == m.dom(),
                players_wf(m),
                self@ == Map::new(
                    |k: AuxAudioKey| m.contains_key(k),
                    |k: AuxAudioKey|
                        if keys@.take(i as int).contains(k) {
                            advanced(m[k], n as int)
                        } else {
                            m[k]
                        },
                ),
                out@ == mixed(m, keys@.take(i as int), n as int),
            decreases keys@.len() - i,
        {
            let key = keys[i];
            assert(keys@.to_set().contains(key));
            assert(!keys@.take(i as int).contains(key));
            let ghost before = self@;
            assert(before.contains_key(key));
            if let Some(mut p) = registry_remove(&mut self.playing, key) {
                assert(p == m[key]);
                mix_player(&mut p, out);
                registry_insert(&mut self.playing, key, p);
            }
            proof {
                let t = keys@.take(i + 1);
                assert(t.drop_last() == keys@.take(i as int));
                assert(t.last() == key);
                assert forall|k: AuxAudioKey| t.contains(k) <==> (keys@.take(i as int).contains(k)
                    || k == key) by {
                    if t.contains(k) && k != key {
                        let a = choose|a: int| 0 <= a < t.len() && t[a] == k;
                        assert(keys@.take(i as int)[a] == k);
                    }
                    if keys@.take(i as int).contains(k) {
                        let a = choose|a: int| 0 <= a < i && keys@.take(i as int)[a] == k;
                        assert(t[a] == k);
                    }
                    if k == key {
                        assert(t[i as int] == k);
                    }
                }
                assert(self@ =~= Map::new(
                    |k: AuxAudioKey| m.contains_key(k),
                    |k: AuxAudioKey|
                        if t.contains(k) {
                            advanced(m[k], n as int)
                        } else {
                            m[k]
                        },
                ));
            }
            i = i + 1;
        }
        proof {
            assert(keys@.take(keys@.len() as int) == keys@);
            assert forall|k: AuxAudioKey| m.contains_key(k) implies keys@.contains(k) by {
                assert(keys@.to_set().contains(k));
            }
            assert(self@ =~= m.map_values(|p: SamplePlayer| advanced(p, n as int)));
            assert forall|k: AuxAudioKey| #[trigger] self@.contains_key(k) implies self@[k].wf() by {
                assert(m[k].wf());
            }
        }
    }
}

/// Hands out keys for preview sounds, each one once.
pub struct KeyCounter {
    pub next: AuxAudioKey,
}

impl KeyCounter {
    /// A counter whose first key is 0.
    pub fn new() -> (r: Self)
        ensures
            r.next == 0,
    {
        KeyCounter { next: 0 }
    }

    /// The next key; no key is handed out twice.
    pub fn next_key(&mut self) -> (r: Option<AuxAudioKey>)
        ensures
            old(self).next < u64::MAX ==> r == Some(old(self).next) && final(self).next
                == old(self).next + 1,
            old(self).next == u64::MAX ==> r is None && final(self).next == old(self).next,
    {
        if self.next == u64::MAX {
            return None;
        }
        let key = self.next;
        self.next = key + 1;
        Some(key)
    }
}

} // verus!
