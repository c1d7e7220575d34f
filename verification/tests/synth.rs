use corus_v2::synth::bender::Bender;
use corus_v2::synth::effectors::{Effector, ShaperType, StateKind};
use corus_v2::synth::param_pool::ProducerId;

#[test]
fn effector_names() {
    let e: Effector<f64> = Effector::Compressor { threshold: 0.8, ratio: 0.5, attack: 0.01, release: 0.03, gain: 1.0 };
    assert_eq!(e.name(), "Compressor");
    assert_eq!(e.param_names(), &["threshold", "ratio", "attack", "release", "gain"]);
    let e: Effector<f64> = Effector::Reverb;
    assert_eq!(e.name(), "Reverb");
    assert!(e.param_names().is_empty());
    let e: Effector<f64> = Effector::Shaper { pre_gain: 1.0, shaper_type: ShaperType::Tanh };
    assert_eq!(e.name(), "Shaper");
    assert_eq!(e.param_names(), &["pre_gain"]);
}

#[test]
fn effector_params_can_be_changed_in_place() {
    let mut e: Effector<f64> = Effector::Filter { frequency: 5000.0, q: 1.0 };
    {
        let params = e.param_muts();
        assert_eq!(params.len(), e_names_len());
        for p in params {
            *p *= 2.0;
        }
    }
    match e {
        Effector::Filter { frequency, q } => {
            assert_eq!(frequency, 10000.0);
            assert_eq!(q, 2.0);
        }
        _ => panic!("variant changed"),
    }
    let mut t: Effector<f64> = Effector::Tanh;
    assert!(t.param_muts().is_empty());
}

fn e_names_len() -> usize {
    let e: Effector<f64> = Effector::Filter { frequency: 0.0, q: 0.0 };
    e.param_names().len()
}

#[test]
fn effector_state_kinds() {
    let g: Effector<f64> = Effector::Gain { gain: 1.0 };
    assert!(g.state_kind() == StateKind::Gain);
    assert!(g.keeps_state(StateKind::Gain));
    assert!(!g.keeps_state(StateKind::Empty));
    assert!(!g.keeps_state(StateKind::Filter));
    let s: Effector<f64> = Effector::Shaper { pre_gain: 1.0, shaper_type: ShaperType::Sin };
    assert!(s.state_kind() == StateKind::Shaper);
    assert!(!s.keeps_state(StateKind::Shaper));
}

#[test]
fn shaper_type_names() {
    let names: Vec<&str> = ShaperType::ALL.iter().map(|s| s.name()).collect();
    assert_eq!(names, vec!["HardClip", "Tanh", "Sin", "Wrap", "Triangle"]);
}

#[test]
fn producer_id_holds_its_slot() {
    let p = ProducerId::new(3);
    assert_eq!(p.0, 3);
    assert_eq!(p, ProducerId(3));
}

#[test]
fn bender_variants_compare() {
    assert_eq!(Bender::Identity, Bender::Identity);
    assert_ne!(Bender::Sin, Bender::Cos);
}
