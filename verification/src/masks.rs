use vstd::prelude::*;
use crate::draw::masks_fit;
use crate::raster::{raster_samples, raster_size, Raster};
use crate::tile::{BOARD_SIZE, GRAPHIC_OPTIONS};

verus! {

/// One of the two fixed output sizes.
#[derive(Clone, Copy, Debug, PartialEq, Eq, Structural, Hash)]
pub enum BoardSize {
    Small,
    Large,
}

/// The size class that a name stands for.
pub open spec fn named_size(name: Seq<char>) -> Option<BoardSize> {
    if name == "Small"@ {
        Some(BoardSize::Small)
    } else if name == "Large"@ {
        Some(BoardSize::Large)
    } else {
        None
    }
}

impl BoardSize {
    /// The side of the rendered image, in pixels.
    pub open spec fn spec_pixels(self) -> u32 {
        match self {
            BoardSize::Small => 600,
            BoardSize::Large => 2000,
        }
    }

    /// The side of one tile's footprint, in pixels.
    pub open spec fn spec_tile_size(self) -> u32 {
        (self.spec_pixels() / BOARD_SIZE as u32) as u32
    }

    /// The side of the rendered image, in pixels.
    pub fn pixels(self) -> (p: u32)
        ensures
            p == self.spec_pixels(),
    {
        match self {
            BoardSize::Small => 600,
            BoardSize::Large => 2000,
        }
    }

    /// The side of one tile's footprint, in pixels.
    pub fn tile_size(self) -> (t: u32)
        ensures
            t == self.spec_tile_size(),
            BOARD_SIZE * t == self.spec_pixels(),
    {
        self.pixels() / (BOARD_SIZE as u32)
    }

    /// Reads a size class from its name: `Small` or `Large`.
    pub fn parse(s: &str) -> (r: Option<BoardSize>)
        ensures
            r == named_size(s@),
    {
        let text: String = s.to_owned();
        let small: String = "Small".to_owned();
        let large: String = "Large".to_owned();
        if text == small {
            Some(BoardSize::Small)
        } else if text == large {
            Some(BoardSize::Large)
        } else {
            None
        }
    }
}

impl std::str::FromStr for BoardSize {
    type Err = ();

    fn from_str(s: &str) -> (r: Result<BoardSize, ()>)
        ensures
            r == match named_size(s@) {
                Some(size) => Ok::<BoardSize, ()>(size),
                None => Err::<BoardSize, ()>(()),
            },
    {
        match BoardSize::parse(s) {
            Some(size) => Ok(size),
            None => Err(()),
        }
    }
}

/// Why a set of masks cannot be loaded.
#[derive(Clone, Copy, Debug, PartialEq, Eq, Structural)]
pub enum AssetError {
    /// A resolution class does not come with one mask for each pattern.
    WrongCount,
    /// A mask holds fewer samples than an image of its class has.
    ShortMask,
}

/// The raw masks can be loaded as the masks of a class whose images are
/// `side` pixels wide and high.
pub open spec fn loadable(raw: Seq<Seq<u8>>, side: int) -> Result<(), AssetError> {
    if raw.len() != GRAPHIC_OPTIONS {
        Err(AssetError::WrongCount)
    } else if exists|m: int| 0 <= m < raw.len() && (#[trigger] raw[m]).len() < 4 * side * side {
        Err(AssetError::ShortMask)
    } else {
        Ok(())
    }
}

/// The images are the raw masks, each taken as an image of `side` by `side`
/// pixels.
pub open spec fn loaded_from(images: Seq<Raster>, raw: Seq<Seq<u8>>, side: int) -> bool {
    &&& images.len() == raw.len()
    &&& forall|m: int|
        0 <= m < images.len() ==> raster_size(#[trigger] images[m]) == (side as nat, side as nat)
            && raster_samples(images[m]) == raw[m]
}

/// The raw masks as sequences of samples.
pub open spec fn raw_views(raw: Seq<Vec<u8>>) -> Seq<Seq<u8>> {
    Seq::new(raw.len(), |m: int| raw[m]@)
}

/// The two sets of pattern masks, once loaded.
pub struct MaskSets {
    pub small: Vec<Raster>,
    pub large: Vec<Raster>,
}

/// The pattern masks of both resolution classes. The store is either not
/// loaded or holds both sets in full; once loaded it does not change.
pub struct MaskStore {
    sets: Option<MaskSets>,
}

/// Loads the masks of one class, all or none.
pub fn load_masks(raw: Vec<Vec<u8>>, side: u32) -> (r: Result<Vec<Raster>, AssetError>)
    ensures
        match r {
            Ok(images) => loadable(raw_views(raw@), side as int).is_ok() && loaded_from(
                images@,
                raw_views(raw@),
                side as int,
            ),
            Err(e) => loadable(raw_views(raw@), side as int) == Err::<(), AssetError>(e),
        },
{
    if raw.len() != GRAPHIC_OPTIONS {
        return Err(AssetError::WrongCount);
    }
    let ghost given = raw@;
    let mut rest = raw;
    let mut backwards: Vec<Raster> = Vec::new();
    while rest.len() > 0
        invariant
            given == raw@,
            given.len() == GRAPHIC_OPTIONS,
            rest@.len() + backwards@.len() == given.len(),
            rest@ == given.take(rest@.len() as int),
            forall|k: int|
                0 <= k < backwards@.len() ==> raster_size(#[trigger] backwards@[k]) == (
                    side as nat,
                    side as nat,
                ) && raster_samples(backwards@[k]) == given[given.len() - 1 - k]@,
            forall|k: int|
                rest@.len() <= k < given.len() ==> (#[trigger] raw_views(given)[k]).len() >= 4
                    * side * side,
        decreases rest@.len(),
    {
        let ghost at = rest@.len() - 1;
        let samples = match rest.pop() {
            Some(samples) => samples,
            None => Vec::new(),
        };
        let length: usize = samples.len();
        match Raster::over(side, side, samples) {
            Some(image) => {
                backwards.push(image);
            },
            None => {
                assert(4 * side <= 4 * side * side || side == 0) by (nonlinear_arith)
                    requires
                        side >= 0,
                ;
                assert(length == given[at]@.len());
                assert(raw_views(given)[at].len() < 4 * side * side);
                return Err(AssetError::ShortMask);
            },
        }
    }
    let ghost turned = backwards@;
    let mut images: Vec<Raster> = Vec::new();
    while backwards.len() > 0
        invariant
            turned.len() == given.len(),
            backwards@.len() + images@.len() == turned.len(),
            backwards@ == turned.take(backwards@.len() as int),
            forall|k: int|
                0 <= k < images@.len() ==> #[trigger] images@[k] == turned[turned.len() - 1 - k],
        decreases backwards@.len(),
    {
        let ghost at = backwards@.len() - 1;
        match backwards.pop() {
            Some(image) => {
                images.push(image);
            },
            None => {},
        }
    }
    proof {
        assert forall|m: int| 0 <= m < images@.len() implies raster_size(#[trigger] images@[m])
            == (side as nat, side as nat) && raster_samples(images@[m]) == raw_views(given)[m] by {
            let k = turned.len() - 1 - m;
        }
    }
    Ok(images)
}

impl MaskStore {
    /// The sets that the store holds, if it is loaded.
    pub closed spec fn loaded(&self) -> Option<MaskSets> {
        self.sets
    }

    /// A loaded store holds, for each class, one mask for each pattern, as
    /// large as the class's image.
    pub closed spec fn wf(&self) -> bool {
        match self.sets {
            Some(sets) => masks_fit(sets.small@, BoardSize::Small.spec_pixels() as int)
                && masks_fit(sets.large@, BoardSize::Large.spec_pixels() as int),
            None => true,
        }
    }

    /// The masks of a class, if the store is loaded.
    pub open spec fn masks(&self, size: BoardSize) -> Option<Seq<Raster>> {
        match self.loaded() {
            Some(sets) => Some(
                match size {
                    BoardSize::Small => sets.small@,
                    BoardSize::Large => sets.large@,
                },
            ),
            None => None,
        }
    }

    /// The masks of a loaded store fit the image of their class.
    pub proof fn lemma_masks_fit(&self, size: BoardSize)
        requires
            self.wf(),
            self.loaded() is Some,
        ensures
            masks_fit(self.masks(size).unwrap(), size.spec_pixels() as int),
    {
    }

    /// A store that is not loaded.
    pub fn new() -> (store: MaskStore)
        ensures
            store.wf(),
            store.loaded() is None,
    {
        MaskStore { sets: None }
    }

    /// Whether the store is loaded.
    pub fn is_loaded(&self) -> (b: bool)
        ensures
            b == (self.loaded() is Some),
    {
        self.sets.is_some()
    }

    /// Loads both sets of masks from their raw samples, unless the store is
    /// loaded already: then nothing happens. A load that fails leaves the
    /// store as it was, not loaded.
    pub fn initialize_masks(&mut self, small_masks: Vec<Vec<u8>>, large_masks: Vec<Vec<u8>>) -> (r:
        Result<(), AssetError>)
        requires
            old(self).wf(),
        ensures
            final(self).wf(),
            old(self).loaded() is Some ==> r.is_ok() && final(self).loaded() == old(self).loaded(),
            old(self).loaded() is None ==> match r {
                Ok(_) => {
                    &&& loadable(raw_views(small_masks@), 600).is_ok()
                    &&& loadable(raw_views(large_masks@), 2000).is_ok()
                    &&& final(self).loaded() matches Some(sets)
                    &&& loaded_from(sets.small@, raw_views(small_masks@), 600)
                    &&& loaded_from(sets.large@, raw_views(large_masks@), 2000)
                },
                Err(e) => {
                    &&& final(self).loaded() is None
                    &&& e == match loadable(raw_views(small_masks@), 600) {
                        Err(first) => first,
                        Ok(_) => loadable(raw_views(large_masks@), 2000).unwrap_err(),
                    }
                    &&& loadable(raw_views(small_masks@), 600).is_err() || loadable(
                        raw_views(large_masks@),
                        2000,
                    ).is_err()
                },
            },
    {
        if self.sets.is_some() {
            return Ok(());
        }
        let small = match load_masks(small_masks, BoardSize::Small.pixels()) {
            Ok(images) => images,
            Err(e) => {
                return Err(e);
            },
        };
        let large = match load_masks(large_masks, BoardSize::Large.pixels()) {
            Ok(images) => images,
            Err(e) => {
                return Err(e);
            },
        };
        self.sets = Some(MaskSets { small, large });
        Ok(())
    }

    /// The masks of a class, if the store is loaded.
    pub fn get(&self, size: BoardSize) -> (r: Option<&Vec<Raster>>)
        ensures
            match r {
                Some(images) => self.masks(size) == Some(images@),
                None => self.masks(size) is None,
            },
    {
        match &self.sets {
            Some(sets) => Some(
                match size {
                    BoardSize::Small => &sets.small,
                    BoardSize::Large => &sets.large,
                },
            ),
            None => None,
        }
    }
}

} // verus!
