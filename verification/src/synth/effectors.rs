use vstd::prelude::*;

verus! {

/// The wave shapers that an effector can apply.
#[derive(Clone, Copy, PartialEq, Eq, Structural, PartialOrd)]
pub enum ShaperType {
    HardClip,
    Tanh,
    Sin,
    Wrap,
    Triangle,
}

impl ShaperType {
    pub const ALL: [ShaperType; 5] = [
        ShaperType::HardClip,
        ShaperType::Tanh,
        ShaperType::Sin,
        ShaperType::Wrap,
        ShaperType::Triangle,
    ];

    /// The shaper's display name.
    pub open spec fn name_spec(self) -> Seq<char> {
        match self {
            ShaperType::HardClip => "HardClip"@,
            ShaperType::Tanh => "Tanh"@,
            ShaperType::Sin => "Sin"@,
            ShaperType::Wrap => "Wrap"@,
            ShaperType::Triangle => "Triangle"@,
        }
    }

    /// The shaper's display name.
    pub fn name(&self) -> (r: &'static str)
        ensures
            r@ == self.name_spec(),
    {
        match self {
            ShaperType::HardClip => "HardClip",
            ShaperType::Tanh => "Tanh",
            ShaperType::Sin => "Sin",
            ShaperType::Wrap => "Wrap",
            ShaperType::Triangle => "Triangle",
        }
    }
}

/// The effects of the synthesizer, each with its automatable parameters of
/// type `P`.
pub enum Effector<P> {
    Filter { frequency: P, q: P },
    Phaser,
    Chorus,
    Delay,
    Reverb,
    Gain { gain: P },
    Compressor { threshold: P, ratio: P, attack: P, release: P, gain: P },
    Tanh,
    Shaper { pre_gain: P, shaper_type: ShaperType },
}

/// The kinds of processing state that effectors keep between samples.
#[derive(Clone, Copy, PartialEq, Eq, Structural)]
pub enum StateKind {
    Filter,
    Phaser,
    Chorus,
    Delay,
    Reverb,
    Gain,
    Compressor,
    Tanh,
    Shaper,
    Empty,
}

/// Every effector names each of its parameters: there are as many names as
/// parameters.
pub proof fn law_names_match_params<P>(effector: Effector<P>)
    ensures
        effector.param_names_spec().len() == effector.params().len(),
{
}

/// Replacing an effector's parameters by as many new ones keeps its kind and
/// gives back exactly the new parameters.
pub proof fn law_with_params_roundtrip<P>(effector: Effector<P>, ps: Seq<P>)
    requires
        ps.len() == effector.params().len(),
    ensures
        effector.with_params(ps).params() == ps,
        effector.with_params(ps).state_kind_spec() == effector.state_kind_spec(),
        effector.with_params(ps).name_spec() == effector.name_spec(),
{
    assert(effector.with_params(ps).params() =~= ps);
}

/// `a` and `b` are effectors of one kind, whatever their parameters.
pub open spec fn same_kind<P>(a: Effector<P>, b: Effector<P>) -> bool {
    ||| a is Filter && b is Filter
    ||| a is Phaser && b is Phaser
    ||| a is Chorus && b is Chorus
    ||| a is Delay && b is Delay
    ||| a is Reverb && b is Reverb
    ||| a is Gain && b is Gain
    ||| a is Compressor && b is Compressor
    ||| a is Tanh && b is Tanh
    ||| a is Shaper && b is Shaper
}

/// Each effector processes with the state kind of its own name, so that
/// effectors of different kinds never share a kind of state, and keeps a
/// state exactly where it is of that kind (a shaper never keeps one).
pub proof fn law_state_kind_follows_effector<P>(effector: Effector<P>, other: Effector<P>)
    ensures
        effector is Filter ==> effector.state_kind_spec() == StateKind::Filter,
        effector is Phaser ==> effector.state_kind_spec() == StateKind::Phaser,
        effector is Chorus ==> effector.state_kind_spec() == StateKind::Chorus,
        effector is Delay ==> effector.state_kind_spec() == StateKind::Delay,
        effector is Reverb ==> effector.state_kind_spec() == StateKind::Reverb,
        effector is Gain ==> effector.state_kind_spec() == StateKind::Gain,
        effector is Compressor ==> effector.state_kind_spec() == StateKind::Compressor,
        effector is Tanh ==> effector.state_kind_spec() == StateKind::Tanh,
        effector is Shaper ==> effector.state_kind_spec() == StateKind::Shaper,
        effector.state_kind_spec() != StateKind::Empty,
        effector.state_kind_spec() == other.state_kind_spec() <==> same_kind(effector, other),
{
}

/// The `i`-th parameter is the field that the `i`-th name names: a filter's
/// are its frequency and q, a gain's its gain, a compressor's its threshold,
/// ratio, attack, release and gain, a shaper's its pre-gain; the others
/// have none.
pub proof fn law_params_follow_fields<P>(effector: Effector<P>)
    ensures
        effector matches Effector::Filter { frequency, q } ==> {
            &&& effector.param_names_spec() == seq!["frequency"@, "q"@]
            &&& effector.params() == seq![frequency, q]
        },
        effector matches Effector::Gain { gain } ==> {
            &&& effector.param_names_spec() == seq!["gain"@]
            &&& effector.params() == seq![gain]
        },
        effector matches Effector::Compressor { threshold, ratio, attack, release, gain } ==> {
            &&& effector.param_names_spec() == seq!["threshold"@, "ratio"@, "attack"@, "release"@, "gain"@]
            &&& effector.params() == seq![threshold, ratio, attack, release, gain]
        },
        effector matches Effector::Shaper { pre_gain, .. } ==> {
            &&& effector.param_names_spec() == seq!["pre_gain"@]
            &&& effector.params() == seq![pre_gain]
        },
        (effector is Phaser || effector is Chorus || effector is Delay || effector is Reverb || effector is Tanh)
            ==> effector.param_names_spec().len() == 0 && effector.params().len() == 0,
{
}

impl<P> Effector<P> {
    /// The effector's display name.
    pub open spec fn name_spec(&self) -> Seq<char> {
        match self {
            Effector::Filter { .. } => "Filter"@,
            Effector::Phaser => "Phaser"@,
            Effector::Chorus => "Chorus"@,
            Effector::Delay => "Delay"@,
            Effector::Reverb => "Reverb"@,
            Effector::Gain { .. } => "Gain"@,
            Effector::Compressor { .. } => "Compressor"@,
            Effector::Tanh => "Tanh"@,
            Effector::Shaper { .. } => "Shaper"@,
        }
    }

    /// The names of the effector's parameters, in order.
    pub open spec fn param_names_spec(&self) -> Seq<Seq<char>> {
        match self {
            Effector::Filter { .. } => seq!["frequency"@, "q"@],
            Effector::Gain { .. } => seq!["gain"@],
            Effector::Compressor { .. } => seq!["threshold"@, "ratio"@, "attack"@, "release"@, "gain"@],
            Effector::Shaper { .. } => seq!["pre_gain"@],
            _ => seq![],
        }
    }

    /// The effector's parameters, in the order of their names.
    pub open spec fn params(&self) -> Seq<P> {
        match self {
            Effector::Filter { frequency, q } => seq![*frequency, *q],
            Effector::Gain { gain } => seq![*gain],
            Effector::Compressor { threshold, ratio, attack, release, gain } => seq![*threshold, *ratio, *attack, *release, *gain],
            Effector::Shaper { pre_gain, .. } => seq![*pre_gain],
            _ => seq![],
        }
    }

    /// The same effector with its parameters replaced by `ps`, in order.
    pub open spec fn with_params(&self, ps: Seq<P>) -> Self {
        match self {
            Effector::Filter { .. } => Effector::Filter { frequency: ps[0], q: ps[1] },
            Effector::Gain { .. } => Effector::Gain { gain: ps[0] },
            Effector::Compressor { .. } => Effector::Compressor { threshold: ps[0], ratio: ps[1], attack: ps[2], release: ps[3], gain: ps[4] },
            Effector::Shaper { shaper_type, .. } => Effector::Shaper { pre_gain: ps[0], shaper_type: *shaper_type },
            Effector::Phaser => Effector::Phaser,
            Effector::Chorus => Effector::Chorus,
            Effector::Delay => Effector::Delay,
            Effector::Reverb => Effector::Reverb,
            Effector::Tanh => Effector::Tanh,
        }
    }

    /// The kind of state that the effector processes with.
    pub open spec fn state_kind_spec(&self) -> StateKind {
        match self {
            Effector::Filter { .. } => StateKind::Filter,
            Effector::Phaser => StateKind::Phaser,
            Effector::Chorus => StateKind::Chorus,
            Effector::Delay => StateKind::Delay,
            Effector::Reverb => StateKind::Reverb,
            Effector::Gain { .. } => StateKind::Gain,
            Effector::Compressor { .. } => StateKind::Compressor,
            Effector::Tanh => StateKind::Tanh,
            Effector::Shaper { .. } => StateKind::Shaper,
        }
    }

    /// The effector's display name.
    pub fn name(&self) -> (r: &'static str)
        ensures
            r@ == self.name_spec(),
    {
        match self {
            Effector::Filter { .. } => "Filter",
            Effector::Phaser => "Phaser",
            Effector::Chorus => "Chorus",
            Effector::Delay => "Delay",
            Effector::Reverb => "Reverb",
            Effector::Gain { .. } => "Gain",
            Effector::Compressor { .. } => "Compressor",
            Effector::Tanh => "Tanh",
            Effector::Shaper { .. } => "Shaper",
        }
    }

    /// The names of the effector's parameters, in order.
    pub fn param_names(&self) -> (r: &'static [&'static str])
        ensures
            r@.len() == self.param_names_spec().len(),
            forall|i: int| 0 <= i < r@.len() ==> #[trigger] r@[i]@ == self.param_names_spec()[i],
    {
        match self {
            Effector::Filter { .. } => &["frequency", "q"],
            Effector::Phaser => &[],
            Effector::Chorus => &[],
            Effector::Delay => &[],
            Effector::Reverb => &[],
            Effector::Gain { .. } => &["gain"],
            Effector::Compressor { .. } => &["threshold", "ratio", "attack", "release", "gain"],
            Effector::Tanh => &[],
            Effector::Shaper { .. } => &["pre_gain"],
        }
    }

    /// Mutable access to the effector's parameters, in the order of their names.
    pub fn param_muts(&mut self) -> (r: Vec<&mut P>)
        ensures
            r@.len() == old(self).params().len(),
            forall|i: int| 0 <= i < r@.len() ==> *#[trigger] r@[i] == old(self).params()[i],
            *final(self) == old(self).with_params(Seq::new(r@.len(), |i: int| *final(r@[i]))),
    {
        match self {
            Effector::Filter { frequency, q } => vec![frequency, q],
            Effector::Phaser => vec![],
            Effector::Chorus => vec![],
            Effector::Delay => vec![],
            Effector::Reverb => vec![],
            Effector::Gain { gain } => vec![gain],
            Effector::Compressor { threshold, ratio, attack, release, gain } => vec![threshold, ratio, attack, release, gain],
            Effector::Tanh => vec![],
            Effector::Shaper { pre_gain, .. } => vec![pre_gain],
        }
    }

    /// The kind of state that the effector processes with.
    pub fn state_kind(&self) -> (r: StateKind)
        ensures
            r == self.state_kind_spec(),
    {
        match self {
            Effector::Filter { .. } => StateKind::Filter,
            Effector::Phaser => StateKind::Phaser,
            Effector::Chorus => StateKind::Chorus,
            Effector::Delay => StateKind::Delay,
            Effector::Reverb => StateKind::Reverb,
            Effector::Gain { .. } => StateKind::Gain,
            Effector::Compressor { .. } => StateKind::Compressor,
            Effector::Tanh => StateKind::Tanh,
            Effector::Shaper { .. } => StateKind::Shaper,
        }
    }

    /// Whether a state of kind `current` can be kept for this effector; where
    /// it cannot, the effector needs a fresh state of its own kind. A shaper
    /// keeps no state across this check: it always gets a fresh one.
    pub fn keeps_state(&self, current: StateKind) -> (r: bool)
        ensures
            r <==> (current == self.state_kind_spec() && self.state_kind_spec() != StateKind::Shaper),
    {
        match (self, current) {
            (Effector::Filter { .. }, StateKind::Filter) => true,
            (Effector::Phaser, StateKind::Phaser) => true,
            (Effector::Chorus, StateKind::Chorus) => true,
            (Effector::Delay, StateKind::Delay) => true,
            (Effector::Reverb, StateKind::Reverb) => true,
            (Effector::Gain { .. }, StateKind::Gain) => true,
            (Effector::Compressor { .. }, StateKind::Compressor) => true,
            (Effector::Tanh, StateKind::Tanh) => true,
            _ => false,
        }
    }
}

} // verus!
