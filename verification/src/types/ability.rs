use vstd::prelude::*;
use crate::types::identifiers::{ObjectId, PlayerId};
use crate::types::zones::Zone;

verus! {

/// What an ability is aimed at.
#[derive(Clone, Copy, Debug, PartialEq, Eq, Structural, Hash)]
pub enum TargetRef {
    Object(ObjectId),
    Player(PlayerId),
}

#[derive(Clone, Copy, Debug, PartialEq, Eq, Structural, Hash)]
pub enum ControllerRef {
    You,
    Opponent,
}

/// Permanents, restricted by who controls them.
#[derive(Clone, Copy, Debug, PartialEq, Eq, Structural, Hash)]
pub struct TypedFilter {
    pub controller: Option<ControllerRef>,
}

impl Default for TypedFilter {
    fn default() -> (filter: TypedFilter)
        ensures
            filter == (TypedFilter { controller: None }),
    {
        TypedFilter { controller: None }
    }
}

impl TypedFilter {
    pub fn controller(self, controller: ControllerRef) -> (filter: TypedFilter)
        ensures
            filter == (TypedFilter { controller: Some(controller) }),
    {
        TypedFilter { controller: Some(controller) }
    }
}

#[derive(Clone, Copy, Debug, PartialEq, Eq, Structural, Hash)]
pub enum TargetFilter {
    Any,
    SelfRef,
    Controller,
    StackAbility { controller: Option<ControllerRef> },
    Typed(TypedFilter),
}

#[derive(Clone, Copy, Debug, PartialEq, Eq, Structural, Hash)]
pub enum QuantityExpr {
    Fixed { value: i32 },
}

/// Which object deals the damage, where it is not the source of the ability.
#[derive(Clone, Copy, Debug, PartialEq, Eq, Structural, Hash)]
pub enum DamageSource {
    Target,
}

#[derive(Clone, Copy, Debug, PartialEq, Eq, Structural, Hash)]
pub enum CounterType {
    PlusOnePlusOne,
    Loyalty,
    Luck,
}

pub fn clone_counters(counters: &Vec<(CounterType, QuantityExpr)>) -> (res: Vec<
    (CounterType, QuantityExpr),
>)
    ensures
        res@ == counters@,
{
    let mut res: Vec<(CounterType, QuantityExpr)> = Vec::new();
    for i in 0..counters.len()
        invariant
            res@ == counters@.take(i as int),
    {
        res.push((counters[i].0, counters[i].1));
    }
    res
}

#[derive(Debug)]
pub enum Effect {
    DealDamage { amount: QuantityExpr, target: TargetFilter, damage_source: Option<DamageSource> },
    Draw { count: QuantityExpr, target: TargetFilter },
    Mill { count: QuantityExpr, target: TargetFilter, destination: Zone },
    ChangeZone {
        destination: Zone,
        target: TargetFilter,
        origin: Option<Zone>,
        owner_library: bool,
        enter_transformed: bool,
        under_your_control: bool,
        enter_tapped: bool,
        enters_attacking: bool,
        up_to: bool,
        enter_with_counters: Vec<(CounterType, QuantityExpr)>,
    },
    CopySpell { target: TargetFilter },
}

/// An effect as a value.
#[verifier::ext_equal]
pub enum EffectModel {
    DealDamage { amount: QuantityExpr, target: TargetFilter, damage_source: Option<DamageSource> },
    Draw { count: QuantityExpr, target: TargetFilter },
    Mill { count: QuantityExpr, target: TargetFilter, destination: Zone },
    ChangeZone {
        destination: Zone,
        target: TargetFilter,
        origin: Option<Zone>,
        owner_library: bool,
        enter_transformed: bool,
        under_your_control: bool,
        enter_tapped: bool,
        enters_attacking: bool,
        up_to: bool,
        enter_with_counters: Seq<(CounterType, QuantityExpr)>,
    },
    CopySpell { target: TargetFilter },
}

impl View for Effect {
    type V = EffectModel;

    open spec fn view(&self) -> EffectModel {
        match *self {
            Effect::DealDamage { amount, target, damage_source } => EffectModel::DealDamage {
                amount,
                target,
                damage_source,
            },
            Effect::Draw { count, target } => EffectModel::Draw { count, target },
            Effect::Mill { count, target, destination } => EffectModel::Mill {
                count,
                target,
                destination,
            },
            Effect::ChangeZone {
                destination,
                target,
                origin,
                owner_library,
                enter_transformed,
                under_your_control,
                enter_tapped,
                enters_attacking,
                up_to,
                enter_with_counters,
            } => EffectModel::ChangeZone {
                destination,
                target,
                origin,
                owner_library,
                enter_transformed,
                under_your_control,
                enter_tapped,
                enters_attacking,
                up_to,
                enter_with_counters: enter_with_counters@,
            },
            Effect::CopySpell { target } => EffectModel::CopySpell { target },
        }
    }
}

impl Clone for Effect {
    fn clone(&self) -> (res: Effect)
        ensures
            res@ == self@,
    {
        match self {
            Effect::DealDamage { amount, target, damage_source } => Effect::DealDamage {
                amount: *amount,
                target: *target,
                damage_source: *damage_source,
            },
            Effect::Draw { count, target } => Effect::Draw { count: *count, target: *target },
            Effect::Mill { count, target, destination } => Effect::Mill {
                count: *count,
                target: *target,
                destination: *destination,
            },
            Effect::ChangeZone {
                destination,
                target,
                origin,
                owner_library,
                enter_transformed,
                under_your_control,
                enter_tapped,
                enters_attacking,
                up_to,
                enter_with_counters,
            } => Effect::ChangeZone {
                destination: *destination,
                target: *target,
                origin: *origin,
                owner_library: *owner_library,
                enter_transformed: *enter_transformed,
                under_your_control: *under_your_control,
                enter_tapped: *enter_tapped,
                enters_attacking: *enters_attacking,
                up_to: *up_to,
                enter_with_counters: clone_counters(enter_with_counters),
            },
            Effect::CopySpell { target } => Effect::CopySpell { target: *target },
        }
    }
}

/// Which effect it is, without its parameters.
#[derive(Clone, Copy, Debug, PartialEq, Eq, Structural, Hash)]
pub enum EffectKind {
    DealDamage,
    Draw,
    Mill,
    ChangeZone,
    CopySpell,
}

pub open spec fn effect_kind(effect: EffectModel) -> EffectKind {
    match effect {
        EffectModel::DealDamage { .. } => EffectKind::DealDamage,
        EffectModel::Draw { .. } => EffectKind::Draw,
        EffectModel::Mill { .. } => EffectKind::Mill,
        EffectModel::ChangeZone { .. } => EffectKind::ChangeZone,
        EffectModel::CopySpell { .. } => EffectKind::CopySpell,
    }
}

impl From<&Effect> for EffectKind {
    fn from(effect: &Effect) -> (kind: EffectKind) {
        match effect {
            Effect::DealDamage { .. } => EffectKind::DealDamage,
            Effect::Draw { .. } => EffectKind::Draw,
            Effect::Mill { .. } => EffectKind::Mill,
            Effect::ChangeZone { .. } => EffectKind::ChangeZone,
            Effect::CopySpell { .. } => EffectKind::CopySpell,
        }
    }
}

impl vstd::std_specs::convert::FromSpecImpl<&Effect> for EffectKind {
    open spec fn obeys_from_spec() -> bool {
        true
    }

    open spec fn from_spec(effect: &Effect) -> EffectKind {
        effect_kind(effect@)
    }
}

pub open spec fn variant_name(kind: EffectKind) -> Seq<char> {
    match kind {
        EffectKind::DealDamage => "DealDamage"@,
        EffectKind::Draw => "Draw"@,
        EffectKind::Mill => "Mill"@,
        EffectKind::ChangeZone => "ChangeZone"@,
        EffectKind::CopySpell => "CopySpell"@,
    }
}

/// The name of an effect, without its parameters.
pub fn effect_variant_name(effect: &Effect) -> (name: &'static str)
    ensures
        name@ == variant_name(effect_kind(effect@)),
{
    match effect {
        Effect::DealDamage { .. } => "DealDamage",
        Effect::Draw { .. } => "Draw",
        Effect::Mill { .. } => "Mill",
        Effect::ChangeZone { .. } => "ChangeZone",
        Effect::CopySpell { .. } => "CopySpell",
    }
}

pub open spec fn text_of(text: Option<String>) -> Option<Seq<char>> {
    match text {
        Some(chars) => Some(chars@),
        None => None,
    }
}

/// When an ability functions.
#[derive(Clone, Copy, Debug, PartialEq, Eq, Structural, Hash)]
pub enum AbilityKind {
    Spell,
    Activated,
    /// Functions from the opening hand, before the first turn (CR 103.6).
    BeginGame,
}

/// An ability as it is printed on a card.
#[derive(Debug)]
pub struct AbilityDefinition {
    pub kind: AbilityKind,
    pub effect: Effect,
    pub optional: bool,
    pub cant_be_copied: bool,
    pub repeat_for: Option<QuantityExpr>,
    pub description: Option<String>,
    pub sub_ability: Option<Box<AbilityDefinition>>,
    pub else_ability: Option<Box<AbilityDefinition>>,
}

/// A printed ability as a value.
#[verifier::ext_equal]
pub struct DefinitionModel {
    pub kind: AbilityKind,
    pub effect: EffectModel,
    pub optional: bool,
    pub cant_be_copied: bool,
    pub repeat_for: Option<QuantityExpr>,
    pub description: Option<Seq<char>>,
    pub sub_ability: Option<Box<DefinitionModel>>,
    pub else_ability: Option<Box<DefinitionModel>>,
}

impl AbilityDefinition {
    pub open spec fn model(self) -> DefinitionModel
        decreases self,
    {
        DefinitionModel {
            kind: self.kind,
            effect: self.effect@,
            optional: self.optional,
            cant_be_copied: self.cant_be_copied,
            repeat_for: self.repeat_for,
            description: text_of(self.description),
            sub_ability: match self.sub_ability {
                Some(sub) => Some(Box::new(sub.model())),
                None => None,
            },
            else_ability: match self.else_ability {
                Some(sub) => Some(Box::new(sub.model())),
                None => None,
            },
        }
    }

    pub fn new(kind: AbilityKind, effect: Effect) -> (definition: AbilityDefinition)
        ensures
            definition@ == (DefinitionModel {
                kind,
                effect: effect@,
                optional: false,
                cant_be_copied: false,
                repeat_for: None,
                description: None,
                sub_ability: None,
                else_ability: None,
            }),
    {
        AbilityDefinition {
            kind,
            effect,
            optional: false,
            cant_be_copied: false,
            repeat_for: None,
            description: None,
            sub_ability: None,
            else_ability: None,
        }
    }

    pub fn description(self, description: String) -> (definition: AbilityDefinition)
        ensures
            definition@ == (DefinitionModel { description: Some(description@), ..self@ }),
    {
        AbilityDefinition { description: Some(description), ..self }
    }
}

impl View for AbilityDefinition {
    type V = DefinitionModel;

    open spec fn view(&self) -> DefinitionModel {
        self.model()
    }
}

impl Clone for AbilityDefinition {
    fn clone(&self) -> (res: AbilityDefinition)
        ensures
            res@ == self@,
        decreases self,
    {
        AbilityDefinition {
            kind: self.kind,
            effect: self.effect.clone(),
            optional: self.optional,
            cant_be_copied: self.cant_be_copied,
            repeat_for: self.repeat_for,
            description: self.description.clone(),
            sub_ability: match &self.sub_ability {
                Some(sub) => Some(Box::new((&**sub).clone())),
                None => None,
            },
            else_ability: match &self.else_ability {
                Some(sub) => Some(Box::new((&**sub).clone())),
                None => None,
            },
        }
    }
}

pub open spec fn definition_models(definitions: Seq<AbilityDefinition>) -> Seq<DefinitionModel> {
    definitions.map_values(|definition: AbilityDefinition| definition@)
}

pub fn clone_definitions(definitions: &Vec<AbilityDefinition>) -> (res: Vec<AbilityDefinition>)
    ensures
        definition_models(res@) == definition_models(definitions@),
{
    let mut res: Vec<AbilityDefinition> = Vec::new();
    for i in 0..definitions.len()
        invariant
            res@.len() == i,
            forall|j: int| 0 <= j < i ==> (#[trigger] res@[j])@ == definitions@[j]@,
    {
        res.push(definitions[i].clone());
    }
    assert(definition_models(res@) =~= definition_models(definitions@));
    res
}

/// An ability on its way to resolving: its source, its controller and its targets are known.
#[derive(Debug)]
pub struct ResolvedAbility {
    pub effect: Effect,
    pub targets: Vec<TargetRef>,
    pub source_id: ObjectId,
    pub controller: PlayerId,
    pub optional: bool,
    pub cant_be_copied: bool,
    pub repeat_for: Option<QuantityExpr>,
    pub description: Option<String>,
    pub sub_ability: Option<Box<ResolvedAbility>>,
    pub else_ability: Option<Box<ResolvedAbility>>,
}

/// An ability on its way to resolving, as a value.
#[verifier::ext_equal]
pub struct AbilityModel {
    pub effect: EffectModel,
    pub targets: Seq<TargetRef>,
    pub source_id: ObjectId,
    pub controller: PlayerId,
    pub optional: bool,
    pub cant_be_copied: bool,
    pub repeat_for: Option<QuantityExpr>,
    pub description: Option<Seq<char>>,
    pub sub_ability: Option<Box<AbilityModel>>,
    pub else_ability: Option<Box<AbilityModel>>,
}

impl ResolvedAbility {
    pub open spec fn model(self) -> AbilityModel
        decreases self,
    {
        AbilityModel {
            effect: self.effect@,
            targets: self.targets@,
            source_id: self.source_id,
            controller: self.controller,
            optional: self.optional,
            cant_be_copied: self.cant_be_copied,
            repeat_for: self.repeat_for,
            description: text_of(self.description),
            sub_ability: match self.sub_ability {
                Some(sub) => Some(Box::new(sub.model())),
                None => None,
            },
            else_ability: match self.else_ability {
                Some(sub) => Some(Box::new(sub.model())),
                None => None,
            },
        }
    }

    pub fn new(
        effect: Effect,
        targets: Vec<TargetRef>,
        source_id: ObjectId,
        controller: PlayerId,
    ) -> (ability: ResolvedAbility)
        ensures
            ability@ == (AbilityModel {
                effect: effect@,
                targets: targets@,
                source_id,
                controller,
                optional: false,
                cant_be_copied: false,
                repeat_for: None,
                description: None,
                sub_ability: None,
                else_ability: None,
            }),
    {
        ResolvedAbility {
            effect,
            targets,
            source_id,
            controller,
            optional: false,
            cant_be_copied: false,
            repeat_for: None,
            description: None,
            sub_ability: None,
            else_ability: None,
        }
    }
}

impl View for ResolvedAbility {
    type V = AbilityModel;

    open spec fn view(&self) -> AbilityModel {
        self.model()
    }
}

impl Clone for ResolvedAbility {
    fn clone(&self) -> (res: ResolvedAbility)
        ensures
            res@ == self@,
        decreases self,
    {
        ResolvedAbility {
            effect: self.effect.clone(),
            targets: self.targets.clone(),
            source_id: self.source_id,
            controller: self.controller,
            optional: self.optional,
            cant_be_copied: self.cant_be_copied,
            repeat_for: self.repeat_for,
            description: self.description.clone(),
            sub_ability: match &self.sub_ability {
                Some(sub) => Some(Box::new((&**sub).clone())),
                None => None,
            },
            else_ability: match &self.else_ability {
                Some(sub) => Some(Box::new((&**sub).clone())),
                None => None,
            },
        }
    }
}

/// Why an effect could not be carried out.
#[derive(Debug)]
pub enum EffectError {
    /// Something that the effect needs is not there.
    MissingParam(String),
    /// A chain of sub-abilities is longer than the engine follows.
    ChainTooDeep,
    /// No identifier is left for a new object.
    IdsExhausted,
    /// Nothing in this library carries the effect out.
    NoHandler(EffectKind),
}

/// An error as a value.
#[verifier::ext_equal]
pub enum ErrorModel {
    MissingParam(Seq<char>),
    ChainTooDeep,
    IdsExhausted,
    NoHandler(EffectKind),
}

impl View for EffectError {
    type V = ErrorModel;

    open spec fn view(&self) -> ErrorModel {
        match *self {
            EffectError::MissingParam(what) => ErrorModel::MissingParam(what@),
            EffectError::ChainTooDeep => ErrorModel::ChainTooDeep,
            EffectError::IdsExhausted => ErrorModel::IdsExhausted,
            EffectError::NoHandler(kind) => ErrorModel::NoHandler(kind),
        }
    }
}

} // verus!
