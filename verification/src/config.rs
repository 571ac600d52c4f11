//! The configuration of the engine: the channels to synchronise and how often.
use vstd::prelude::*;

verus! {

/// A booking channel and the ICS feed it publishes.
#[derive(Debug, Clone)]
pub struct ChannelConfig {
    pub name: String,
    pub ics_url: String,
    pub enabled: bool,
}

/// The engine's configuration.
#[derive(Debug, Clone)]
pub struct Config {
    pub channels: Vec<ChannelConfig>,
    pub sync_interval_minutes: u64,
    pub database_path: String,
}

/// The `(name, url)` pairs of the enabled channels, in configuration order.
pub open spec fn enabled_pairs(channels: Seq<ChannelConfig>) -> Seq<(Seq<char>, Seq<char>)>
    decreases channels.len(),
{
    if channels.len() == 0 {
        Seq::empty()
    } else {
        let rest = enabled_pairs(channels.drop_last());
        let c = channels.last();
        if c.enabled {
            rest.push((c.name@, c.ics_url@))
        } else {
            rest
        }
    }
}

pub open spec fn pairs_view(s: Seq<(String, String)>) -> Seq<(Seq<char>, Seq<char>)> {
    s.map_values(|p: (String, String)| (p.0@, p.1@))
}

/// The name and feed URL of every enabled channel, in configuration order.
pub fn enabled_channels(channels: &Vec<ChannelConfig>) -> (r: Vec<(String, String)>)
    ensures
        pairs_view(r@) == enabled_pairs(channels@),
{
    let mut out: Vec<(String, String)> = Vec::new();
    let n = channels.len();
    let mut i: usize = 0;
    assert(channels@.take(0) =~= Seq::<ChannelConfig>::empty());
    assert(pairs_view(out@) =~= Seq::<(Seq<char>, Seq<char>)>::empty());
    while i < n
        invariant
            n == channels@.len(),
            i <= n,
            pairs_view(out@) == enabled_pairs(channels@.take(i as int)),
        decreases n - i,
    {
        let c = &channels[i];
        assert(channels@.take(i + 1).drop_last() =~= channels@.take(i as int));
        assert(channels@.take(i + 1).last() == *c);
        if c.enabled {
            let ghost old_out = out@;
            out.push((c.name.clone(), c.ics_url.clone()));
            assert(pairs_view(out@) =~= pairs_view(old_out).push((c.name@, c.ics_url@)));
        }
        i = i + 1;
    }
    assert(channels@.take(n as int) =~= channels@);
    out
}


/// How many channels are enabled.
pub open spec fn count_enabled(channels: Seq<ChannelConfig>) -> nat
    decreases channels.len(),
{
    if channels.len() == 0 {
        0
    } else {
        count_enabled(channels.drop_last()) + if channels.last().enabled {
            1nat
        } else {
            0nat
        }
    }
}

/// Exactly the enabled channels are synchronised, each once, in configuration
/// order: there are as many pairs as enabled channels, and the enabled channel
/// preceded by `k` enabled channels gives the `k`-th pair, its own name and URL.
pub proof fn lemma_enabled_pairs(channels: Seq<ChannelConfig>)
    ensures
        enabled_pairs(channels).len() == count_enabled(channels),
        forall|i: int|
            0 <= i < channels.len() && (#[trigger] channels[i]).enabled ==> {
                &&& count_enabled(channels.take(i)) < count_enabled(channels)
                &&& enabled_pairs(channels)[count_enabled(channels.take(i)) as int] == (
                channels[i].name@,
                channels[i].ics_url@,
            )
            },
    decreases channels.len(),
{
    if channels.len() > 0 {
        let rest = channels.drop_last();
        let n = channels.len() - 1;
        lemma_enabled_pairs(rest);
        assert forall|i: int|
            0 <= i < channels.len() && (#[trigger] channels[i]).enabled implies {
                &&& count_enabled(channels.take(i)) < count_enabled(channels)
                &&& enabled_pairs(channels)[count_enabled(channels.take(i)) as int] == (
                channels[i].name@,
                channels[i].ics_url@,
            )
            } by {
            if i < n {
                assert(channels.take(i) =~= rest.take(i));
                assert(rest[i] == channels[i]);
            } else {
                assert(channels.take(i) =~= rest);
            }
        }
    }
}

} // verus!
