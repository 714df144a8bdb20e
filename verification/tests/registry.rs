use wavyte::plan::InternId;
use wavyte::registry::{EffectKindId, ParamId, RegistryBindingsBuilder};

#[test]
fn names_keep_the_id_they_got_first() {
    let mut b = RegistryBindingsBuilder::new();
    assert_eq!(b.effect_kind_id(InternId(7)), EffectKindId(0));
    assert_eq!(b.effect_kind_id(InternId(3)), EffectKindId(1));
    assert_eq!(b.effect_kind_id(InternId(7)), EffectKindId(0));
    assert_eq!(b.param_id(InternId(3)), ParamId(0));
    assert_eq!(b.param_id(InternId(9)), ParamId(1));
    assert_eq!(b.param_id(InternId(3)), ParamId(0));
}

#[test]
fn build_maps_every_interned_string() {
    let mut b = RegistryBindingsBuilder::new();
    b.effect_kind_id(InternId(2));
    b.effect_kind_id(InternId(0));
    b.param_id(InternId(1));
    let r = b.build(4);
    assert_eq!(r.effect_intern_by_id, vec![InternId(2), InternId(0)]);
    assert_eq!(r.param_intern_by_id, vec![InternId(1)]);
    assert_eq!(r.effect_kind_by_intern, vec![Some(EffectKindId(1)), None, Some(EffectKindId(0)), None]);
    assert_eq!(r.param_id_by_intern, vec![None, Some(ParamId(0)), None, None]);
}
