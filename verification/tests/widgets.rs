use rtop_dev::components::bar::VerticalBar;
use rtop_dev::plugin::Plugin;
use rtop_dev::widget::Widget;

struct GaugeWidget {
    value: i32,
}

impl Widget for GaugeWidget {
    fn display(&mut self, height: i32, width: i32) -> String {
        let h = if height < 1 { 1 } else { height };
        let w = if width < 1 { 1 } else { width };
        let clamped = self.value.max(0).min(100);
        VerticalBar::new(h, w, None).display(clamped)
    }
}

#[test]
fn widget_default_hooks() {
    let mut w = GaugeWidget { value: 50 };
    assert!(w.title().is_none());
    w.on_update();
    w.on_input(String::from("q"));
    let out = Widget::display(&mut w, 2, 2);
    assert_eq!(out.lines().count(), 2);
}

struct SilentPlugin;

impl Plugin for SilentPlugin {
    fn display(&mut self, _height: i32, _width: i32) -> String {
        String::new()
    }
}

#[test]
fn plugin_default_hooks() {
    let mut p = SilentPlugin;
    assert_eq!(p.refresh_rate(), 333);
    p.update();
    p.on_input(String::from("x"));
    assert_eq!(Plugin::display(&mut p, 1, 1), "");
}
