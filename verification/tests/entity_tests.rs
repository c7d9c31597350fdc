use ring_world::effects::WeatherState;
use ring_world::entity::{MobBehavior, MobType};
use ring_world::voxel::VoxelType;

#[test]
fn only_floater_hovers() {
    assert!(MobType::Floater.hovers());
    assert!(!MobType::Sentinel.hovers());
    assert!(!MobType::Grazer.hovers());
}

#[test]
fn entity_drop_items_correct() {
    assert_eq!(MobType::Stalker.drop_item(), VoxelType::Vine);
    assert_eq!(MobType::Sentinel.drop_item(), VoxelType::IronIngot);
    assert_eq!(MobType::Floater.drop_item(), VoxelType::Torch);
}

#[test]
fn behavior_categories() {
    assert_eq!(MobType::Floater.behavior(), MobBehavior::Passive);
    assert_eq!(MobType::Ringkin.behavior(), MobBehavior::Passive);
    assert_eq!(MobType::Stalker.behavior(), MobBehavior::Hostile);
    assert_eq!(MobType::Sentinel.behavior(), MobBehavior::Hostile);
}

#[test]
fn weather_cycles_clear_rain_snow() {
    assert_eq!(WeatherState::Clear.next(), WeatherState::Rain);
    assert_eq!(WeatherState::Rain.next(), WeatherState::Snow);
    assert_eq!(WeatherState::Snow.next(), WeatherState::Clear);
    assert_eq!(WeatherState::Rain.next().next().next(), WeatherState::Rain);
}
