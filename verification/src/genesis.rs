//! Building a registry from a list of seeds.

use crate::config::Config;
use crate::error::Error;
use crate::key::byte_strings_view;
use crate::model::{genesis_outcome, seed_stands, seeds_stand, SeedView};
use crate::name::{bytes_copy, bytes_eq, name_fits};
use crate::pallet::Pallet;
use crate::style::StyleView;
use vstd::prelude::*;

verus! {

/// The styles a registry starts with: each with its name and the names of
/// its sub-styles.
#[derive(Debug)]
pub struct GenesisConfig {
    /// The existing styles at the genesis.
    pub styles: Vec<(Vec<u8>, Vec<Vec<u8>>)>,
}

/// The views of a seed list, in order.
pub open spec fn seeds_view(styles: Seq<(Vec<u8>, Vec<Vec<u8>>)>) -> Seq<SeedView> {
    Seq::new(
        styles.len(),
        |k: int| SeedView { name: styles[k].0@, sub_names: byte_strings_view(styles[k].1@) },
    )
}

impl View for GenesisConfig {
    type V = Seq<SeedView>;

    open spec fn view(&self) -> Seq<SeedView> {
        seeds_view(self.styles@)
    }
}

impl Default for GenesisConfig {
    /// No style at all.
    fn default() -> (genesis: GenesisConfig)
        ensures
            genesis@ == Seq::<SeedView>::empty(),
    {
        let genesis = GenesisConfig { styles: Vec::new() };
        genesis
    }
}

/// A copy of a list of byte strings.
pub fn byte_strings_copy(strings: &Vec<Vec<u8>>) -> (copy: Vec<Vec<u8>>)
    ensures
        byte_strings_view(copy@) == byte_strings_view(strings@),
{
    let mut copy: Vec<Vec<u8>> = Vec::new();
    let mut k: usize = 0;
    while k < strings.len()
        invariant
            k <= strings.len(),
            copy.len() == k,
            forall|m: int| 0 <= m < k ==> (#[trigger] copy@[m])@ == strings@[m]@,
        decreases strings.len() - k,
    {
        copy.push(bytes_copy(&strings[k]));
        k += 1;
    }
    copy
}

/// Whether `seed` can stand by itself under the limits `config`.
pub fn seed_stands_check(seed: &(Vec<u8>, Vec<Vec<u8>>), config: &Config) -> (ok: bool)
    ensures
        ok == seed_stands(
            *config,
            SeedView { name: seed.0@, sub_names: byte_strings_view(seed.1@) },
        ),
{
    let ghost subs = byte_strings_view(seed.1@);
    if seed.0.len() == 0 || seed.0.len() > config.name_max_length as usize {
        return false;
    }
    if seed.1.len() > config.max_sub_styles as usize {
        return false;
    }
    let mut l: usize = 0;
    while l < seed.1.len()
        invariant
            l <= seed.1.len(),
            subs == byte_strings_view(seed.1@),
            forall|j: int| 0 <= j < l ==> name_fits(#[trigger] subs[j], config.name_max_length),
            forall|a: int, b: int| 0 <= a < b < l ==> #[trigger] subs[a] != #[trigger] subs[b],
        decreases seed.1.len() - l,
    {
        assert(subs[l as int] == seed.1@[l as int]@);
        if seed.1[l].len() == 0 || seed.1[l].len() > config.name_max_length as usize {
            return false;
        }
        let mut j: usize = 0;
        while j < l
            invariant
                j <= l < seed.1.len(),
                subs == byte_strings_view(seed.1@),
                forall|a: int| 0 <= a < j ==> #[trigger] subs[a] != subs[l as int],
            decreases l - j,
        {
            assert(subs[j as int] == seed.1@[j as int]@);
            assert(subs[l as int] == seed.1@[l as int]@);
            if bytes_eq(&seed.1[j], &seed.1[l]) {
                return false;
            }
            j += 1;
        }
        l += 1;
    }
    true
}

impl GenesisConfig {
    /// Whether the seed list can stand under the limits `config`, as far as
    /// its names and its lengths tell: a list that cannot is no seed list to
    /// build from, and whoever holds one has nothing to start with.
    pub fn seeds_stand_check(&self, config: Config) -> (ok: bool)
        ensures
            ok == seeds_stand(config, self@),
    {
        let ghost seeds = self@;
        if self.styles.len() > config.max_styles as usize {
            return false;
        }
        let mut m: usize = 0;
        while m < self.styles.len()
            invariant
                m <= self.styles.len(),
                seeds == self@,
                forall|k: int| 0 <= k < m ==> seed_stands(config, #[trigger] seeds[k]),
                forall|a: int, b: int|
                    0 <= a < b < m ==> (#[trigger] seeds[a]).name != (#[trigger] seeds[b]).name,
            decreases self.styles.len() - m,
        {
            if !seed_stands_check(&self.styles[m], &config) {
                assert(!seed_stands(config, seeds[m as int]));
                return false;
            }
            let mut k: usize = 0;
            while k < m
                invariant
                    k <= m < self.styles.len(),
                    seeds == self@,
                    forall|a: int|
                        0 <= a < k ==> (#[trigger] seeds[a]).name != seeds[m as int].name,
                decreases m - k,
            {
                if bytes_eq(&self.styles[k].0, &self.styles[m].0) {
                    assert(seeds[k as int].name == seeds[m as int].name);
                    return false;
                }
                k += 1;
            }
            m += 1;
        }
        true
    }

    /// Builds the registry that the seed list describes under the limits
    /// `config`, by adding its styles one after the other to an empty
    /// registry. The seed list must stand: one that breaks a limit or
    /// repeats a name is not to be built from. What can still go wrong is
    /// that two derived identifiers meet; the error of the first style that
    /// cannot be added says so.
    pub fn build(&self, config: Config) -> (built: Result<Pallet, Error>)
        requires
            seeds_stand(config, self@),
        ensures
            match built {
                Ok(pallet) => genesis_outcome(config, self@) == Ok::<Seq<StyleView>, Error>(
                    pallet@,
                ) && pallet.limits() == config,
                Err(e) => genesis_outcome(config, self@) == Err::<Seq<StyleView>, Error>(e),
            },
    {
        let ghost seeds = self@;
        let mut pallet = Pallet::new(config);
        let mut k: usize = 0;
        while k < self.styles.len()
            invariant
                k <= self.styles.len(),
                seeds == self@,
                pallet.limits() == config,
                genesis_outcome(config, seeds.take(k as int)) == Ok::<Seq<StyleView>, Error>(
                    pallet@,
                ),
            decreases self.styles.len() - k,
        {
            let name = bytes_copy(&self.styles[k].0);
            let subs = byte_strings_copy(&self.styles[k].1);
            proof {
                assert(seeds.take(k + 1).drop_last() =~= seeds.take(k as int));
            }
            let added = pallet.add_style(name, Some(subs));
            match added {
                Ok(_) => {},
                Err(e) => {
                    proof {
                        lemma_genesis_refused_early(config, seeds, k + 1);
                    }
                    return Err(e);
                },
            }
            k += 1;
        }
        assert(seeds.take(self.styles.len() as int) =~= seeds);
        Ok(pallet)
    }
}

/// Once the first `n` seeds are refused, the whole list is refused for the
/// same reason.
pub proof fn lemma_genesis_refused_early(cfg: Config, seeds: Seq<SeedView>, n: int)
    requires
        0 <= n <= seeds.len(),
        genesis_outcome(cfg, seeds.take(n)) is Err,
    ensures
        genesis_outcome(cfg, seeds) == genesis_outcome(cfg, seeds.take(n)),
    decreases seeds.len() - n,
{
    if n == seeds.len() {
        assert(seeds.take(n) =~= seeds);
    } else {
        assert(seeds.drop_last().take(n) =~= seeds.take(n));
        lemma_genesis_refused_early(cfg, seeds.drop_last(), n);
    }
}

} // verus!
