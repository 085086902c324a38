//! What a definition holds that no field by itself can set: lists that calls build.

use vstd::prelude::*;

use crate::lower::anim::{copy_anims, AnimView, AnimationSetAnimsEntry};
use crate::lower::builders::{
    ExpressionEntry, HeroParticle, HeroTexture, ParticleView, SoundCriterion, SoundRange,
    WoundEntry, WoundView,
};
use crate::lower::calls::{DegradableInfo, FireEffect, ModifierGraphic, ReplaceableMesh, SpecialEffect};
use crate::lower::controls::{ControlsDef, ControlsView};
use crate::lower::morph::{AppearanceView, RandomAppearanceMorph};
use crate::lower::opinions::{DeedEffect, MatchView, ReactionFrequency, ReactionMatch};
use crate::lower::things::{ComponentsView, ThingComponentSet, WeaponTrail};
use crate::single::Single;
use crate::text::base;
use crate::value::copy_bytes;

verus! {

broadcast use base::group_views;

/// The lists of a definition that calls build; where a definition has such a list,
/// it stands for the field of that name.
#[derive(Debug)]
pub enum Extra {
    Nothing,
    Animations(Vec<AnimationSetAnimsEntry>),
    Creature {
        appearance: RandomAppearanceMorph,
        expressions: Vec<ExpressionEntry>,
        wounds: Vec<WoundEntry>,
    },
    Sounds { ranges: Vec<SoundRange>, criteria: Vec<SoundCriterion> },
    Fire(Vec<FireEffect>),
    HeroMorphs {
        textures: Vec<HeroTexture>,
        particles: Vec<HeroParticle>,
        idle_particles: Vec<HeroParticle>,
    },
    Deeds(Vec<DeedEffect>),
    Traits(Vec<Single>),
    Reactions { matches: Vec<ReactionMatch>, frequencies: Vec<ReactionFrequency> },
    Effects(Vec<SpecialEffect>),
    Components(ThingComponentSet),
    Trails(Vec<WeaponTrail>),
    Degradations(Vec<DegradableInfo>),
    Meshes(Vec<ReplaceableMesh>),
    Graphics(Vec<ModifierGraphic>),
    Controls(ControlsDef),
}

/// What an [`Extra`] holds.
pub enum ExtraView {
    Nothing,
    Animations(Seq<AnimView>),
    Creature {
        appearance: AppearanceView,
        expressions: Seq<ExpressionEntry>,
        wounds: Seq<WoundView>,
    },
    Sounds { ranges: Seq<SoundRange>, criteria: Seq<SoundCriterion> },
    Fire(Seq<FireEffect>),
    HeroMorphs {
        textures: Seq<HeroTexture>,
        particles: Seq<ParticleView>,
        idle_particles: Seq<ParticleView>,
    },
    Deeds(Seq<DeedEffect>),
    Traits(Seq<Single>),
    Reactions { matches: Seq<MatchView>, frequencies: Seq<ReactionFrequency> },
    Effects(Seq<SpecialEffect>),
    Components(ComponentsView),
    Trails(Seq<WeaponTrail>),
    Degradations(Seq<DegradableInfo>),
    Meshes(Seq<ReplaceableMesh>),
    Graphics(Seq<Seq<u8>>),
    Controls(ControlsView),
}

impl View for Extra {
    type V = ExtraView;

    open spec fn view(&self) -> ExtraView {
        match *self {
            Extra::Nothing => ExtraView::Nothing,
            Extra::Animations(v) => ExtraView::Animations(base::views(v@)),
            Extra::Creature { appearance, expressions, wounds } => ExtraView::Creature {
                appearance: appearance@,
                expressions: expressions@,
                wounds: base::views(wounds@),
            },
            Extra::Sounds { ranges, criteria } => ExtraView::Sounds {
                ranges: ranges@,
                criteria: criteria@,
            },
            Extra::Fire(v) => ExtraView::Fire(v@),
            Extra::HeroMorphs { textures, particles, idle_particles } => ExtraView::HeroMorphs {
                textures: textures@,
                particles: base::views(particles@),
                idle_particles: base::views(idle_particles@),
            },
            Extra::Deeds(v) => ExtraView::Deeds(v@),
            Extra::Traits(v) => ExtraView::Traits(v@),
            Extra::Reactions { matches, frequencies } => ExtraView::Reactions {
                matches: base::views(matches@),
                frequencies: frequencies@,
            },
            Extra::Effects(v) => ExtraView::Effects(v@),
            Extra::Components(c) => ExtraView::Components(c@),
            Extra::Trails(v) => ExtraView::Trails(v@),
            Extra::Degradations(v) => ExtraView::Degradations(v@),
            Extra::Meshes(v) => ExtraView::Meshes(v@),
            Extra::Graphics(v) => ExtraView::Graphics(base::views(v@)),
            Extra::Controls(c) => ExtraView::Controls(c@),
        }
    }
}

// ── Copies ───────────────────────────────────────────────────────────────────

/// A copy of plain values.
pub fn copy_plain<T: Copy>(v: &Vec<T>) -> (r: Vec<T>)
    ensures
        r@ == v@,
{
    let mut out: Vec<T> = Vec::new();
    let mut i: usize = 0;
    while i < v.len()
        invariant
            i <= v@.len(),
            out@ == v@.take(i as int),
        decreases v@.len() - i,
    {
        out.push(v[i]);
        assert(v@.take(i as int + 1) =~= v@.take(i as int).push(v@[i as int]));
        i = i + 1;
    }
    assert(v@.take(v@.len() as int) =~= v@);
    out
}

/// A value that can be copied.
pub trait Copied: View + Sized {
    /// A copy of the value.
    fn copied(&self) -> (r: Self)
        ensures
            r@ == self@,
    ;
}

impl Copied for WoundEntry {
    fn copied(&self) -> (r: Self) {
        WoundEntry { body_location: self.body_location, data: copy_bytes(&self.data) }
    }
}

impl Copied for HeroParticle {
    fn copied(&self) -> (r: Self) {
        HeroParticle { morph_type: self.morph_type, data: copy_bytes(&self.data) }
    }
}

impl Copied for ModifierGraphic {
    fn copied(&self) -> (r: Self) {
        ModifierGraphic { data: copy_bytes(&self.data) }
    }
}

impl Copied for ReactionMatch {
    fn copied(&self) -> (r: Self) {
        ReactionMatch {
            reaction_type: self.reaction_type,
            kind: self.kind,
            x_axis: self.x_axis,
            y_axis: self.y_axis,
            numbers: copy_plain(&self.numbers),
        }
    }
}

/// A copy of values.
pub fn copy_all<T: Copied>(v: &Vec<T>) -> (r: Vec<T>)
    ensures
        base::views(r@) == base::views(v@),
{
    let ghost all = base::views(v@);
    let mut out: Vec<T> = Vec::new();
    let mut i: usize = 0;
    while i < v.len()
        invariant
            i <= v@.len(),
            all == base::views(v@),
            base::views(out@) == all.take(i as int),
        decreases v@.len() - i,
    {
        out.push(v[i].copied());
        assert(all.take(i as int + 1) =~= all.take(i as int).push(v@[i as int]@));
        i = i + 1;
    }
    assert(all.take(v@.len() as int) =~= all);
    out
}

impl Clone for Extra {
    fn clone(&self) -> (r: Self)
        ensures
            r@ == self@,
    {
        match self {
            Extra::Nothing => Extra::Nothing,
            Extra::Animations(v) => Extra::Animations(copy_anims(v)),
            Extra::Creature { appearance, expressions, wounds } => Extra::Creature {
                appearance: appearance.clone(),
                expressions: copy_plain(expressions),
                wounds: copy_all(wounds),
            },
            Extra::Sounds { ranges, criteria } => Extra::Sounds {
                ranges: copy_plain(ranges),
                criteria: copy_plain(criteria),
            },
            Extra::Fire(v) => Extra::Fire(copy_plain(v)),
            Extra::HeroMorphs { textures, particles, idle_particles } => Extra::HeroMorphs {
                textures: copy_plain(textures),
                particles: copy_all(particles),
                idle_particles: copy_all(idle_particles),
            },
            Extra::Deeds(v) => Extra::Deeds(copy_plain(v)),
            Extra::Traits(v) => Extra::Traits(copy_plain(v)),
            Extra::Reactions { matches, frequencies } => Extra::Reactions {
                matches: copy_all(matches),
                frequencies: copy_plain(frequencies),
            },
            Extra::Effects(v) => Extra::Effects(copy_plain(v)),
            Extra::Components(c) => Extra::Components(
                ThingComponentSet { entries: copy_plain(&c.entries), trailing: c.trailing },
            ),
            Extra::Trails(v) => Extra::Trails(copy_plain(v)),
            Extra::Degradations(v) => Extra::Degradations(copy_plain(v)),
            Extra::Meshes(v) => Extra::Meshes(copy_plain(v)),
            Extra::Graphics(v) => Extra::Graphics(copy_all(v)),
            Extra::Controls(c) => Extra::Controls(c.clone()),
        }
    }
}

// ── Parts ────────────────────────────────────────────────────────────────────

/// An appearance without meshes.
pub open spec fn no_appearance() -> AppearanceView {
    AppearanceView {
        head: Seq::empty(),
        torso: Seq::empty(),
        legs: Seq::empty(),
        max_texture_group: 0,
    }
}

/// A control scheme without controls.
pub open spec fn no_controls() -> ControlsView {
    ControlsView {
        controls: Seq::empty(),
        toggle_z_target: false,
        toggle_spells: false,
        toggle_sneak: false,
        toggle_expression_menu: false,
        toggle_expression_shift: false,
        flourish_needs_attack_button_held: false,
    }
}

impl ExtraView {
    /// The animations, if the definition has them; else none.
    pub open spec fn animations(self) -> Seq<AnimView> {
        match self {
            ExtraView::Animations(v) => v,
            _ => Seq::empty(),
        }
    }

    /// The appearance of a creature.
    pub open spec fn appearance(self) -> AppearanceView {
        match self {
            ExtraView::Creature { appearance, .. } => appearance,
            _ => no_appearance(),
        }
    }

    /// The expressions of a creature.
    pub open spec fn expressions(self) -> Seq<ExpressionEntry> {
        match self {
            ExtraView::Creature { expressions, .. } => expressions,
            _ => Seq::empty(),
        }
    }

    /// The wounds of a creature.
    pub open spec fn wounds(self) -> Seq<WoundView> {
        match self {
            ExtraView::Creature { wounds, .. } => wounds,
            _ => Seq::empty(),
        }
    }

    /// The ranges of sounds.
    pub open spec fn ranges(self) -> Seq<SoundRange> {
        match self {
            ExtraView::Sounds { ranges, .. } => ranges,
            _ => Seq::empty(),
        }
    }

    /// The criteria of sounds.
    pub open spec fn criteria(self) -> Seq<SoundCriterion> {
        match self {
            ExtraView::Sounds { criteria, .. } => criteria,
            _ => Seq::empty(),
        }
    }

    /// The effects of fire.
    pub open spec fn fire(self) -> Seq<FireEffect> {
        match self {
            ExtraView::Fire(v) => v,
            _ => Seq::empty(),
        }
    }

    /// The textures of the hero that morph.
    pub open spec fn textures(self) -> Seq<HeroTexture> {
        match self {
            ExtraView::HeroMorphs { textures, .. } => textures,
            _ => Seq::empty(),
        }
    }

    /// The particles of the hero that morph.
    pub open spec fn particles(self) -> Seq<ParticleView> {
        match self {
            ExtraView::HeroMorphs { particles, .. } => particles,
            _ => Seq::empty(),
        }
    }

    /// The particles of the idle hero that morph.
    pub open spec fn idle_particles(self) -> Seq<ParticleView> {
        match self {
            ExtraView::HeroMorphs { idle_particles, .. } => idle_particles,
            _ => Seq::empty(),
        }
    }

    /// The effects of deeds.
    pub open spec fn deeds(self) -> Seq<DeedEffect> {
        match self {
            ExtraView::Deeds(v) => v,
            _ => Seq::empty(),
        }
    }

    /// The traits of a personality: nine for each of five opinions.
    pub open spec fn traits(self) -> Seq<Single> {
        match self {
            ExtraView::Traits(v) => if v.len() == 45 {
                v
            } else {
                no_traits()
            },
            _ => no_traits(),
        }
    }

    /// The special effects.
    pub open spec fn effects(self) -> Seq<SpecialEffect> {
        match self {
            ExtraView::Effects(v) => v,
            _ => Seq::empty(),
        }
    }

    /// The trails of a weapon.
    pub open spec fn trails(self) -> Seq<WeaponTrail> {
        match self {
            ExtraView::Trails(v) => v,
            _ => Seq::empty(),
        }
    }

    /// The degradations of an object.
    pub open spec fn degradations(self) -> Seq<DegradableInfo> {
        match self {
            ExtraView::Degradations(v) => v,
            _ => Seq::empty(),
        }
    }

    /// The meshes that can be replaced.
    pub open spec fn meshes(self) -> Seq<ReplaceableMesh> {
        match self {
            ExtraView::Meshes(v) => v,
            _ => Seq::empty(),
        }
    }

    /// The graphics of a modifier.
    pub open spec fn graphics(self) -> Seq<Seq<u8>> {
        match self {
            ExtraView::Graphics(v) => v,
            _ => Seq::empty(),
        }
    }

    /// The control scheme.
    pub open spec fn controls(self) -> ControlsView {
        match self {
            ExtraView::Controls(c) => c,
            _ => no_controls(),
        }
    }
}

/// Traits that are all zero.
pub open spec fn no_traits() -> Seq<Single> {
    Seq::new(45, |i: int| Single { bits: 0 })
}

fn zero_traits() -> (r: Vec<Single>)
    ensures
        r@ == no_traits(),
{
    let mut out: Vec<Single> = Vec::new();
    let mut i: usize = 0;
    while i < 45
        invariant
            i <= 45,
            out@ =~= no_traits().take(i as int),
        decreases 45 - i,
    {
        out.push(Single { bits: 0 });
        i = i + 1;
    }
    assert(out@ =~= no_traits());
    out
}

impl Extra {
    /// The animations, if the definition has them; else none.
    pub fn animations(&self) -> (r: Vec<AnimationSetAnimsEntry>)
        ensures
            base::views(r@) == self@.animations(),
    {
        match self {
            Extra::Animations(v) => copy_anims(v),
            _ => Vec::new(),
        }
    }

    /// The appearance of a creature.
    pub fn appearance(&self) -> (r: RandomAppearanceMorph)
        ensures
            r@ == self@.appearance(),
    {
        match self {
            Extra::Creature { appearance, .. } => appearance.clone(),
            _ => RandomAppearanceMorph {
                head: Vec::new(),
                torso: Vec::new(),
                legs: Vec::new(),
                max_texture_group: 0,
            },
        }
    }

    /// The expressions of a creature.
    pub fn expressions(&self) -> (r: Vec<ExpressionEntry>)
        ensures
            r@ == self@.expressions(),
    {
        match self {
            Extra::Creature { expressions, .. } => copy_plain(expressions),
            _ => Vec::new(),
        }
    }

    /// The wounds of a creature.
    pub fn wounds(&self) -> (r: Vec<WoundEntry>)
        ensures
            base::views(r@) == self@.wounds(),
    {
        match self {
            Extra::Creature { wounds, .. } => copy_all(wounds),
            _ => Vec::new(),
        }
    }

    /// The ranges of sounds.
    pub fn ranges(&self) -> (r: Vec<SoundRange>)
        ensures
            r@ == self@.ranges(),
    {
        match self {
            Extra::Sounds { ranges, .. } => copy_plain(ranges),
            _ => Vec::new(),
        }
    }

    /// The criteria of sounds.
    pub fn criteria(&self) -> (r: Vec<SoundCriterion>)
        ensures
            r@ == self@.criteria(),
    {
        match self {
            Extra::Sounds { criteria, .. } => copy_plain(criteria),
            _ => Vec::new(),
        }
    }

    /// The effects of fire.
    pub fn fire(&self) -> (r: Vec<FireEffect>)
        ensures
            r@ == self@.fire(),
    {
        match self {
            Extra::Fire(v) => copy_plain(v),
            _ => Vec::new(),
        }
    }

    /// The textures of the hero that morph.
    pub fn textures(&self) -> (r: Vec<HeroTexture>)
        ensures
            r@ == self@.textures(),
    {
        match self {
            Extra::HeroMorphs { textures, .. } => copy_plain(textures),
            _ => Vec::new(),
        }
    }

    /// The particles of the hero that morph.
    pub fn particles(&self) -> (r: Vec<HeroParticle>)
        ensures
            base::views(r@) == self@.particles(),
    {
        match self {
            Extra::HeroMorphs { particles, .. } => copy_all(particles),
            _ => Vec::new(),
        }
    }

    /// The particles of the idle hero that morph.
    pub fn idle_particles(&self) -> (r: Vec<HeroParticle>)
        ensures
            base::views(r@) == self@.idle_particles(),
    {
        match self {
            Extra::HeroMorphs { idle_particles, .. } => copy_all(idle_particles),
            _ => Vec::new(),
        }
    }

    /// The effects of deeds.
    pub fn deeds(&self) -> (r: Vec<DeedEffect>)
        ensures
            r@ == self@.deeds(),
    {
        match self {
            Extra::Deeds(v) => copy_plain(v),
            _ => Vec::new(),
        }
    }

    /// The traits of a personality: nine for each of five opinions.
    pub fn traits(&self) -> (r: Vec<Single>)
        ensures
            r@ == self@.traits(),
            r@.len() == 45,
    {
        match self {
            Extra::Traits(v) => if v.len() == 45 {
                copy_plain(v)
            } else {
                zero_traits()
            },
            _ => zero_traits(),
        }
    }

    /// The special effects.
    pub fn effects(&self) -> (r: Vec<SpecialEffect>)
        ensures
            r@ == self@.effects(),
    {
        match self {
            Extra::Effects(v) => copy_plain(v),
            _ => Vec::new(),
        }
    }

    /// The trails of a weapon.
    pub fn trails(&self) -> (r: Vec<WeaponTrail>)
        ensures
            r@ == self@.trails(),
    {
        match self {
            Extra::Trails(v) => copy_plain(v),
            _ => Vec::new(),
        }
    }

    /// The degradations of an object.
    pub fn degradations(&self) -> (r: Vec<DegradableInfo>)
        ensures
            r@ == self@.degradations(),
    {
        match self {
            Extra::Degradations(v) => copy_plain(v),
            _ => Vec::new(),
        }
    }

    /// The meshes that can be replaced.
    pub fn meshes(&self) -> (r: Vec<ReplaceableMesh>)
        ensures
            r@ == self@.meshes(),
    {
        match self {
            Extra::Meshes(v) => copy_plain(v),
            _ => Vec::new(),
        }
    }

    /// The graphics of a modifier.
    pub fn graphics(&self) -> (r: Vec<ModifierGraphic>)
        ensures
            base::views(r@) == self@.graphics(),
    {
        match self {
            Extra::Graphics(v) => copy_all(v),
            _ => Vec::new(),
        }
    }

    /// The control scheme.
    pub fn controls(&self) -> (r: ControlsDef)
        ensures
            r@ == self@.controls(),
    {
        match self {
            Extra::Controls(c) => c.clone(),
            _ => ControlsDef {
                controls: Vec::new(),
                toggle_z_target: false,
                toggle_spells: false,
                toggle_sneak: false,
                toggle_expression_menu: false,
                toggle_expression_shift: false,
                flourish_needs_attack_button_held: false,
            },
        }
    }
}

} // verus!
