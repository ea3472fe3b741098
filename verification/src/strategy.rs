//! Parameters of the random `Decimal` generator used in property tests.
//!
//! The generator itself draws floating-point values and lives beside the `Decimal` type; what
//! it is asked to produce is described here. Start from a preset and adjust with the `with_*`
//! methods.

use vstd::prelude::*;

verus! {

/// What the random `Decimal` generator produces. Start from a preset and adjust with the
/// `with_*` methods; the struct is `#[non_exhaustive]` so fields can be added later.
#[derive(Debug, Clone, Copy, PartialEq, Eq, Hash, Structural)]
#[non_exhaustive]
pub struct DecimalParams {
    /// Include zero. Default `true`.
    pub zero: bool,
    /// Include negative values. Default `true`.
    pub negative: bool,
    /// Include values with a fractional part, including those between `0` and `1`. When
    /// `false` every value is a whole number. Default `true`.
    pub fractional: bool,
    /// Include `±inf`. Default `false`.
    pub infinite: bool,
    /// Largest layer generated; `0` restricts to plain floats. Default `4`. Values above
    /// layer 4 are structurally identical to layer 4 for every operation in the crate.
    pub max_layer: i64,
}

/// The default parameters: zero, negative and fractional values, no infinities, layers up
/// to 4.
pub open spec fn default_params() -> DecimalParams {
    DecimalParams { zero: true, negative: true, fractional: true, infinite: false, max_layer: 4 }
}

impl Default for DecimalParams {
    fn default() -> (p: Self)
        ensures
            p == default_params(),
    {
        DecimalParams { zero: true, negative: true, fractional: true, infinite: false, max_layer: 4 }
    }
}

impl DecimalParams {
    /// Finite values of every sign and layer (the default).
    pub fn finite() -> (p: Self)
        ensures
            p == default_params(),
    {
        Self::default()
    }

    /// Finite values plus `±inf`.
    pub fn any() -> (p: Self)
        ensures
            p == (DecimalParams { infinite: true, ..default_params() }),
    {
        Self { infinite: true, ..Self::default() }
    }

    /// Strictly positive finite values.
    pub fn positive() -> (p: Self)
        ensures
            p == (DecimalParams { zero: false, negative: false, ..default_params() }),
    {
        Self { zero: false, negative: false, ..Self::default() }
    }

    /// Finite values with no fractional part: integers at layer 0 and everything above.
    pub fn integer() -> (p: Self)
        ensures
            p == (DecimalParams { fractional: false, ..default_params() }),
    {
        Self { fractional: false, ..Self::default() }
    }

    /// Plain floats only: `|x|` in `[1/9e15, 9e15)`, plus zero.
    pub fn layer0() -> (p: Self)
        ensures
            p == (DecimalParams { max_layer: 0, ..default_params() }),
    {
        Self { max_layer: 0, ..Self::default() }
    }

    /// Sets whether zero is generated.
    pub fn with_zero(self, zero: bool) -> (p: Self)
        ensures
            p == (DecimalParams { zero, ..self }),
    {
        Self { zero, ..self }
    }

    /// Sets whether negative values are generated.
    pub fn with_negative(self, negative: bool) -> (p: Self)
        ensures
            p == (DecimalParams { negative, ..self }),
    {
        Self { negative, ..self }
    }

    /// Sets whether non-integers (including values between `0` and `1`) are generated.
    pub fn with_fractional(self, fractional: bool) -> (p: Self)
        ensures
            p == (DecimalParams { fractional, ..self }),
    {
        Self { fractional, ..self }
    }

    /// Sets whether `±inf` is generated.
    pub fn with_infinite(self, infinite: bool) -> (p: Self)
        ensures
            p == (DecimalParams { infinite, ..self }),
    {
        Self { infinite, ..self }
    }

    /// Restricts to layers up to `max_layer`.
    pub fn with_max_layer(self, max_layer: i64) -> (p: Self)
        ensures
            p == (DecimalParams { max_layer, ..self }),
    {
        Self { max_layer, ..self }
    }
}

/// One family of values the generator draws from; each is picked with a weight.
#[derive(Debug, Clone, Copy, PartialEq, Eq, Hash, Structural)]
pub enum Arm {
    /// Exactly zero.
    Zero,
    /// The integers `1..=1000`, where most game logic lives.
    SmallInteger,
    /// Whole numbers drawn from `[1, 1e15)`.
    WholeNumber,
    /// Whole numbers at the top of layer 0, from `8.9e15` up to `9e15`, or up to `9.1e15`
    /// (into layer 1) when `crosses_layer` is set.
    TopOfLayerZero { crosses_layer: bool },
    /// Fractional numbers drawn from `[1, 1e15)`.
    Fraction,
    /// Numbers between `1 / 9e15` and `1`.
    BelowOne,
    /// Numbers on both sides of the layer-0 / layer-1 boundary below one: `[1e-17, 1.3e-16)`.
    TinyBoundary,
    /// Layer 1 with `mag` just below `16`, where it normalizes down to layer 0.
    LayerOneBoundary,
    /// Layer `layer` with `mag` in `[16, 1e15)`, or its reciprocal (`mag` negated) when
    /// `negative_mag` is set.
    Layer { layer: i64, negative_mag: bool },
    /// Layers `5..=max_layer` with `mag == 100`.
    HighLayers { max_layer: i64 },
    /// Positive infinity.
    Infinity,
}

/// The arms for the layers `2..=top`, starting at `l`.
pub open spec fn layer_arms(l: int, top: int, fractional: bool) -> Seq<(u32, Arm)>
    decreases top + 1 - l,
{
    if l > top {
        seq![]
    } else {
        seq![(3u32, Arm::Layer { layer: l as i64, negative_mag: false })] + (if fractional {
            seq![(1u32, Arm::Layer { layer: l as i64, negative_mag: true })]
        } else {
            seq![]
        }) + layer_arms(l + 1, top, fractional)
    }
}

/// The weighted arms that the generator mixes for parameters `p`, in order.
pub open spec fn arms_of(p: DecimalParams) -> Seq<(u32, Arm)> {
    (if p.zero {
        seq![(2u32, Arm::Zero)]
    } else {
        seq![]
    }) + seq![
        (6u32, Arm::SmallInteger),
        (4u32, Arm::WholeNumber),
        (2u32, Arm::TopOfLayerZero { crosses_layer: p.max_layer >= 1 }),
    ] + (if p.fractional {
        seq![(4u32, Arm::Fraction), (4u32, Arm::BelowOne)]
    } else {
        seq![]
    }) + (if p.max_layer >= 1 {
        seq![(6u32, Arm::Layer { layer: 1, negative_mag: false })] + (if p.fractional {
            seq![
                (1u32, Arm::TinyBoundary),
                (1u32, Arm::LayerOneBoundary),
                (3u32, Arm::Layer { layer: 1, negative_mag: true }),
            ]
        } else {
            seq![]
        })
    } else {
        seq![]
    }) + layer_arms(2, if p.max_layer < 4 { p.max_layer as int } else { 4 }, p.fractional) + (
    if p.max_layer > 4 {
        seq![(1u32, Arm::HighLayers { max_layer: p.max_layer })]
    } else {
        seq![]
    }) + (if p.infinite {
        seq![(1u32, Arm::Infinity)]
    } else {
        seq![]
    })
}

impl DecimalParams {
    /// The weighted families of values that the generator mixes, in order; a drawn value is
    /// negated at random when `negative` is set.
    pub fn arms(&self) -> (arms: Vec<(u32, Arm)>)
        ensures
            arms@ == arms_of(*self),
    {
        let mut arms: Vec<(u32, Arm)> = Vec::new();
        if self.zero {
            arms.push((2, Arm::Zero));
        }
        arms.push((6, Arm::SmallInteger));
        arms.push((4, Arm::WholeNumber));
        arms.push((2, Arm::TopOfLayerZero { crosses_layer: self.max_layer >= 1 }));
        if self.fractional {
            arms.push((4, Arm::Fraction));
            arms.push((4, Arm::BelowOne));
        }
        if self.max_layer >= 1 {
            arms.push((6, Arm::Layer { layer: 1, negative_mag: false }));
            if self.fractional {
                arms.push((1, Arm::TinyBoundary));
                arms.push((1, Arm::LayerOneBoundary));
                arms.push((3, Arm::Layer { layer: 1, negative_mag: true }));
            }
        }
        let ghost before_layers = arms@;
        let top: i64 = if self.max_layer < 4 {
            self.max_layer
        } else {
            4
        };
        let mut l: i64 = 2;
        while l <= top
            invariant
                2 <= l,
                top <= 4,
                l <= top + 1 || top < 2,
                before_layers + layer_arms(2, top as int, self.fractional) =~= arms@
                    + layer_arms(l as int, top as int, self.fractional),
            decreases top + 1 - l,
        {
            let ghost prev = arms@;
            arms.push((3, Arm::Layer { layer: l, negative_mag: false }));
            if self.fractional {
                arms.push((1, Arm::Layer { layer: l, negative_mag: true }));
            }
            assert(layer_arms(l as int, top as int, self.fractional) == seq![
                (3u32, Arm::Layer { layer: l, negative_mag: false }),
            ] + (if self.fractional {
                seq![(1u32, Arm::Layer { layer: l, negative_mag: true })]
            } else {
                seq![]
            }) + layer_arms(l + 1, top as int, self.fractional));
            l += 1;
        }
        if self.max_layer > 4 {
            arms.push((1, Arm::HighLayers { max_layer: self.max_layer }));
        }
        if self.infinite {
            arms.push((1, Arm::Infinity));
        }
        assert(arms@ =~= arms_of(*self));
        arms
    }
}

/// An arm whose every value is a whole number: not `Fraction`, `BelowOne`, `TinyBoundary`
/// or `LayerOneBoundary`, and no reciprocal layer (`negative_mag`).
pub open spec fn draws_whole_numbers(a: Arm) -> bool {
    match a {
        Arm::Fraction | Arm::BelowOne | Arm::TinyBoundary | Arm::LayerOneBoundary => false,
        Arm::Layer { negative_mag, .. } => !negative_mag,
        _ => true,
    }
}

proof fn lemma_layer_arms_whole(l: int, top: int)
    ensures
        forall|i: int|
            0 <= i < layer_arms(l, top, false).len() ==> draws_whole_numbers(
                #[trigger] layer_arms(l, top, false)[i].1,
            ),
    decreases top + 1 - l,
{
    if l <= top {
        lemma_layer_arms_whole(l + 1, top);
        let head = seq![(3u32, Arm::Layer { layer: l as i64, negative_mag: false })];
        let rest = layer_arms(l + 1, top, false);
        assert(layer_arms(l, top, false) =~= head + rest) by {
            assert(head + Seq::<(u32, Arm)>::empty() =~= head);
        }
        assert forall|i: int| 0 <= i < layer_arms(l, top, false).len() implies draws_whole_numbers(
            #[trigger] layer_arms(l, top, false)[i].1,
        ) by {
            if i >= 1 {
                assert(layer_arms(l, top, false)[i] == rest[i - 1]);
            }
        }
    }
}

/// Without `fractional`, every arm draws whole numbers: no family of fractions, of values
/// below one, of the layer boundary, or of reciprocals is mixed in.
pub proof fn whole_numbers_only_without_fractional(p: DecimalParams)
    requires
        !p.fractional,
    ensures
        forall|i: int| 0 <= i < arms_of(p).len() ==> draws_whole_numbers(#[trigger] arms_of(p)[i].1),
{
    let top: int = if p.max_layer < 4 { p.max_layer as int } else { 4 };
    lemma_layer_arms_whole(2, top);
    let a = arms_of(p);
    let first = (if p.zero {
        seq![(2u32, Arm::Zero)]
    } else {
        seq![]
    }) + seq![
        (6u32, Arm::SmallInteger),
        (4u32, Arm::WholeNumber),
        (2u32, Arm::TopOfLayerZero { crosses_layer: p.max_layer >= 1 }),
    ] + Seq::<(u32, Arm)>::empty() + (if p.max_layer >= 1 {
        seq![(6u32, Arm::Layer { layer: 1, negative_mag: false })] + Seq::<(u32, Arm)>::empty()
    } else {
        seq![]
    });
    let layers = layer_arms(2, top, false);
    let last = (if p.max_layer > 4 {
        seq![(1u32, Arm::HighLayers { max_layer: p.max_layer })]
    } else {
        seq![]
    }) + (if p.infinite {
        seq![(1u32, Arm::Infinity)]
    } else {
        seq![]
    });
    assert(a =~= first + layers + last);
    assert forall|i: int| 0 <= i < a.len() implies draws_whole_numbers(#[trigger] a[i].1) by {
        if i < first.len() {
            assert(a[i] == first[i]);
        } else if i < first.len() + layers.len() {
            assert(a[i] == layers[i - first.len()]);
        } else {
            assert(a[i] == last[i - first.len() - layers.len()]);
        }
    }
}

} // verus!
