//! Magical items and the world that hears them.

use vstd::prelude::*;

verus! {

/// The world keeps what has been uttered in it, oldest first.
#[derive(Debug)]
pub struct World {
    utterances: Vec<String>,
}

impl View for World {
    type V = Seq<Seq<char>>;

    /// What has been uttered so far.
    closed spec fn view(&self) -> Seq<Seq<char>> {
        self.utterances@.map_values(|utterance: String| utterance@)
    }
}

impl World {
    /// A silent world.
    pub fn new() -> (world: World)
        ensures
            world@ == Seq::<Seq<char>>::empty(),
    {
        let world = World { utterances: Vec::new() };
        assert(world@ =~= Seq::<Seq<char>>::empty());
        world
    }

    /// Utters a sound.
    pub fn sound(&mut self, utterance: String)
        ensures
            final(self)@ == old(self)@.push(utterance@),
    {
        self.utterances.push(utterance);
        assert(self@ =~= old(self)@.push(utterance@));
    }

    /// What has been uttered so far.
    pub fn utterances(&self) -> (utterances: &Vec<String>)
        ensures
            utterances@.len() == self@.len(),
            forall|i: int| 0 <= i < utterances@.len() ==> (#[trigger] utterances@[i])@ == self@[i],
    {
        &self.utterances
    }
}

/// Something a turtle can activate.
pub trait TurtlePower: Sized {
    /// How the item and the sounds of the world after an activation relate
    /// to those before. Unless an item says more, nothing is known of it.
    open spec fn activated(pre: Self, heard: Seq<Seq<char>>, post: Self, after: Seq<Seq<char>>) -> bool {
        true
    }

    fn activate(&mut self, world: &mut World)
        ensures
            Self::activated(*old(self), old(world)@, *final(self), final(world)@),
    ;
}

#[derive(Debug)]
pub struct Wand {
    charges: u32,
}

impl View for Wand {
    type V = u32;

    /// The charges that are left.
    closed spec fn view(&self) -> u32 {
        self.charges
    }
}

impl Wand {
    pub fn new(charges: u32) -> (wand: Wand)
        ensures
            wand@ == charges,
    {
        Wand { charges }
    }

    pub fn charges(&self) -> (charges: u32)
        ensures
            charges == self@,
    {
        self.charges
    }
}

impl TurtlePower for Wand {
    /// A wand with a charge left spends one and goes "ZAP!"; a spent wand
    /// does nothing.
    open spec fn activated(pre: Self, heard: Seq<Seq<char>>, post: Self, after: Seq<Seq<char>>) -> bool {
        if pre@ > 0 {
            post@ == pre@ - 1 && after == heard.push("ZAP!"@)
        } else {
            post@ == pre@ && after == heard
        }
    }

    fn activate(&mut self, world: &mut World) {
        if self.charges > 0 {
            world.sound("ZAP!".to_owned());
            self.charges = self.charges - 1;
        }
    }
}

#[derive(Debug)]
pub struct Crystal {}

impl Crystal {
    pub fn new() -> Crystal {
        Crystal {  }
    }
}

impl TurtlePower for Crystal {
    /// Crystals last forever: each activation goes "WOOOOOO".
    open spec fn activated(pre: Self, heard: Seq<Seq<char>>, post: Self, after: Seq<Seq<char>>) -> bool {
        after == heard.push("WOOOOOO"@)
    }

    fn activate(&mut self, world: &mut World) {
        world.sound("WOOOOOO".to_owned());
    }
}

/// The item that a turtle carries.
#[derive(Debug)]
pub enum MagicalItem {
    Wand(Wand),
    Crystal(Crystal),
}

impl TurtlePower for MagicalItem {
    open spec fn activated(pre: Self, heard: Seq<Seq<char>>, post: Self, after: Seq<Seq<char>>) -> bool {
        match pre {
            MagicalItem::Wand(wand) => post matches MagicalItem::Wand(spent) && Wand::activated(
                wand,
                heard,
                spent,
                after,
            ),
            MagicalItem::Crystal(crystal) => post matches MagicalItem::Crystal(same)
                && Crystal::activated(crystal, heard, same, after),
        }
    }

    fn activate(&mut self, world: &mut World) {
        match self {
            MagicalItem::Wand(wand) => wand.activate(world),
            MagicalItem::Crystal(crystal) => crystal.activate(world),
        }
    }
}

} // verus!
