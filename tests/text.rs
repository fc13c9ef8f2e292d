use pxls_render::action::{ActionKind, Identifier, Index};
use pxls_render::batch::Step;
use pxls_render::config::{validate_render, ConfigError, ConfigValue};
use pxls_render::frame::PixelFormat;
use pxls_render::render::{action_bounds, MethodKind, RenderMethod};
use pxls_render::text::{duration_to_num, parse_action_line, parse_i64};

fn chars(s: &str) -> Vec<char> {
    s.chars().collect()
}

#[test]
fn parse_i64_values_and_limits() {
    assert_eq!(parse_i64(&chars("0")), Some(0));
    assert_eq!(parse_i64(&chars("-42")), Some(-42));
    assert_eq!(parse_i64(&chars("+7")), Some(7));
    assert_eq!(parse_i64(&chars("9223372036854775807")), Some(i64::MAX));
    assert_eq!(parse_i64(&chars("-9223372036854775808")), Some(i64::MIN));
    assert_eq!(parse_i64(&chars("9223372036854775808")), None);
    assert_eq!(parse_i64(&chars("")), None);
    assert_eq!(parse_i64(&chars("-")), None);
    assert_eq!(parse_i64(&chars("12a")), None);
    assert_eq!(parse_i64(&chars("123456789012345678901234567890")), None);
}

#[test]
fn duration_units() {
    assert_eq!(duration_to_num("1500"), Ok(1500));
    assert_eq!(duration_to_num("30s"), Ok(30000));
    assert_eq!(duration_to_num("15m"), Ok(900000));
    assert_eq!(duration_to_num("3H"), Ok(10800000));
    assert_eq!(duration_to_num("2d"), Ok(172800000));
    assert_eq!(duration_to_num("0s"), Ok(i64::MAX));
    assert_eq!(duration_to_num(""), Err("empty string".to_string()));
    assert_eq!(duration_to_num("0"), Err("time was zero!".to_string()));
    assert_eq!(duration_to_num("5x"), Err("invalid time unit (x)".to_string()));
    assert_eq!(duration_to_num("9223372036854775807s"), Err("time too large (overflow)".to_string()));
    assert!(duration_to_num("abc").is_err());
    assert_eq!(duration_to_num("-5"), Err("time was negative!".to_string()));
    assert_eq!(duration_to_num("-2s"), Err("time was negative!".to_string()));
    assert!(duration_to_num("s").is_err());
    assert!(duration_to_num("9223372036854775807d").is_err());
}

#[test]
fn action_records() {
    let a = parse_action_line("1500\t\t3\t4\t7\tuser place").unwrap();
    assert_eq!((a.time, a.x, a.y), (1500, 3, 4));
    assert_eq!(a.index, Some(Index::Color(7)));
    assert_eq!(a.kind, Some(ActionKind::Place));
    assert!(a.user.is_none());

    let user = "abcdefghijklmnopqrstuvwxyz012345";
    let b = parse_action_line(&format!("-5\t{user}\t0\t0\t-1\trollback undo")).unwrap();
    assert_eq!(b.user, Some(Identifier::Username(user.to_string())));
    assert_eq!(b.index, Some(Index::Transparent));
    assert_eq!(b.kind, Some(ActionKind::RollbackUndo));

    assert!(parse_action_line("1\t\t3\t4\t7").is_none());
    assert!(parse_action_line("1\t\t-3\t4\t7\tuser place").is_none());
    assert!(parse_action_line("1\t\t3\t4\t7\tsomething").is_none());
    assert!(parse_action_line("1\tbob\t3\t4\t7\tuser place").is_none());
    assert!(parse_action_line("1\t\t3\t4\t-2\tuser place").is_none());
}

#[test]
fn style_names() {
    assert_eq!(RenderMethod::try_from("heat"), Ok(RenderMethod::Heat(10800000)));
    assert_eq!(RenderMethod::try_from("age"), Ok(RenderMethod::Age));
    assert!(RenderMethod::try_from("nothing").is_err());
    assert_eq!(RenderMethod::Combined.to_string(), "combined");
    assert_eq!(RenderMethod::Heat(5).kind(), MethodKind::Heatmap(5));
    assert_eq!(PixelFormat::from_name("yuv420p"), Some(PixelFormat::Yuv420p));
    assert_eq!(PixelFormat::from_name("rgb"), Some(PixelFormat::Rgb));
    assert_eq!(PixelFormat::from_name("bgr"), None);
}

#[test]
fn bounds_of_actions() {
    let acts: Vec<_> = [(5u32, 9u32), (2, 11), (7, 10)]
        .iter()
        .map(|&(x, y)| parse_action_line(&format!("0\t\t{x}\t{y}\t0\tuser place")).unwrap())
        .collect();
    let r = action_bounds(&acts).unwrap();
    assert_eq!(r.start(), (2, 9));
    assert_eq!(r.end(), (8, 12));
    assert!(action_bounds(&[]).is_none());
}

#[test]
fn render_settings_checked() {
    assert_eq!(validate_render(Step::Time(1000), MethodKind::Normal, PixelFormat::Yuv420p, 4, 2), Ok(()));
    assert_eq!(
        validate_render(Step::Time(0), MethodKind::Normal, PixelFormat::Rgba, 4, 2),
        Err(ConfigError::InvalidValue(ConfigValue::Step))
    );
    assert_eq!(
        validate_render(Step::Pixels(3), MethodKind::Heatmap(-1), PixelFormat::Rgba, 4, 2),
        Err(ConfigError::InvalidValue(ConfigValue::MethodKind))
    );
    assert_eq!(
        validate_render(Step::Pixels(3), MethodKind::Age, PixelFormat::Yuv420p, 3, 2),
        Err(ConfigError::InvalidValue(ConfigValue::CanvasSize))
    );
    assert_eq!(
        ConfigValue::stringify_vec(&[ConfigValue::DestinationKind, ConfigValue::Step]),
        "\"destination kind\" \"step\""
    );
    assert_eq!(
        ConfigError::new_missing(vec![ConfigValue::Step]),
        ConfigError::MissingValue(vec![ConfigValue::Step])
    );
    assert_eq!(ConfigError::new_infer(ConfigValue::Step), ConfigError::CannotInfer(ConfigValue::Step));
}
