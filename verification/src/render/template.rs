//! The frames and styles of the pages.

use vstd::prelude::*;

verus! {

/// Styles that both pages share.
pub const BASE_CSS: &'static str = r#"
  :root { --me:#5b8def; --them:#e85d75; --me-bg:#e3edff; --them-bg:#fde2e8; --bg:#fff7f9; --card:#fff; --ink:#3a2b2e; --mut:#9a8a8d; }
  * { box-sizing:border-box; }
  body { margin:0; font-family:-apple-system,"PingFang SC","Microsoft YaHei",sans-serif; color:var(--ink); }
  section { background:var(--card); border-radius:16px; padding:18px 20px; margin:16px 0; box-shadow:0 4px 16px rgba(0,0,0,.06); }
  section h2 { margin:0 0 12px; font-size:17px; }
  .bar { display:flex; height:26px; border-radius:13px; overflow:hidden; box-shadow:inset 0 0 0 1px #eee; }
  .bar .me { background:var(--me); } .bar .them { background:var(--them); }
  .bar-legend { display:flex; justify-content:space-between; font-size:13px; color:var(--mut); margin-top:6px; }
  .reply-row { display:flex; align-items:center; gap:14px; margin:10px 0; }
  .reply-label { width:96px; font-size:13px; color:var(--mut); }
  .reply-bars { flex:1; display:flex; flex-direction:column; gap:6px; }
  .rbi { display:flex; align-items:center; gap:8px; }
  .who { width:18px; font-size:12px; font-weight:700; }
  .who.me { color:var(--me); } .who.them { color:var(--them); }
  .rb { position:relative; flex:1; height:14px; background:#f0eef0; border-radius:7px; overflow:hidden; }
  .rb span { display:block; height:100%; }
  .rb .me { background:var(--me); } .rb .them { background:var(--them); }
  .rbi i { width:48px; text-align:right; font-style:normal; font-size:12px; color:var(--ink); }
  .cloud { line-height:2.2; text-align:center; word-break:break-word; }
  .cloud i { font-style:normal; font-size:11px; color:var(--mut); vertical-align:super; }
  .kw { width:100%; border-collapse:collapse; font-size:14px; }
  .kw th,.kw td { padding:6px 10px; text-align:left; border-bottom:1px solid #f3eef0; }
  .kw th { color:var(--mut); font-weight:600; }
  .kw .me { color:var(--me); } .kw .them { color:var(--them); }
  .dig-row { display:grid; grid-template-columns:1fr 1fr; gap:20px; }
  .dig-cell h4 { margin:0 0 10px; font-size:14px; }
  .latpair { display:flex; flex-direction:column; gap:8px; }
  .latpair>div { display:flex; align-items:center; gap:8px; }
  .lat { display:inline-flex; align-items:baseline; gap:8px; font-size:14px; }
  .lat b { font-size:15px; } .lat i { font-style:normal; color:var(--mut); font-size:12px; }
  .lat u { text-decoration:none; font-size:11px; color:var(--mut); }
  .lbl { font-size:12px; font-weight:600; padding:2px 8px; border-radius:6px; }
  .lbl.me { color:var(--me); background:var(--me-bg); } .lbl.them { color:var(--them); background:var(--them-bg); }
  .types { margin-top:16px; display:grid; grid-template-columns:1fr 1fr; gap:16px; }
  .types>div { display:flex; flex-direction:column; gap:6px; }
  .tchips { display:flex; flex-wrap:wrap; gap:6px; }
  .tc { padding:4px 10px; border-radius:8px; background:#f3eff2; font-size:13px; }
  .tc.me { background:var(--me-bg); color:var(--me); } .tc.them { background:var(--them-bg); color:var(--them); }
  .tc i { font-style:normal; font-size:11px; opacity:.6; margin-left:4px; }
  .trend { width:100%; height:auto; display:block; }
  .trend .dot { fill:transparent; }
  .trend .pk { fill:var(--me); stroke:#fff; stroke-width:1.5; }
  .trend .pk-l { font-size:11px; fill:var(--ink); text-anchor:middle; font-weight:600; }
  .trend .ax { font-size:11px; fill:var(--mut); }
  .tag { font-size:12px; font-weight:600; padding:3px 10px; border-radius:999px; margin-left:8px; vertical-align:middle; }
  .tag-up { background:var(--them-bg); color:var(--them); }
  .tag-down { background:var(--me-bg); color:var(--me); }
  .tag-flat, .tag-unk { background:#f0eef0; color:var(--mut); }
  .score { display:flex; align-items:center; gap:18px; }
  .score-num { font-size:48px; font-weight:800; color:var(--them); line-height:1; }
  .score-meta b { font-size:16px; }
  .score-bars { margin-top:6px; display:flex; flex-direction:column; gap:4px; min-width:280px; }
  .sb { display:flex; align-items:center; gap:8px; font-size:12px; }
  .sb>span { width:64px; color:var(--mut); }
  .sbb { flex:1; height:8px; background:#f0eef0; border-radius:4px; overflow:hidden; }
  .sbb i { display:block; height:100%; background:var(--them); }
  .sb u { text-decoration:none; color:var(--mut); width:44px; text-align:right; }
  .milestones { margin:14px 0; }
  .milestones h4, .bio h4 { margin:0 0 8px; font-size:14px; }
  .mi { display:flex; gap:10px; padding:5px 0; font-size:13px; border-bottom:1px solid #f5f0f2; }
  .ml { width:150px; color:var(--mut); }
  .md { flex:1; }
  .bio { margin:14px 0; }
  .lg { float:right; font-size:12px; font-weight:400; color:var(--mut); }
  .lg i { display:inline-block; width:14px; height:3px; vertical-align:middle; margin:0 4px 0 8px; border-radius:2px; }
  .lg i.me { background:var(--me); } .lg i.them { background:var(--them); }
  .cgrid { display:grid; grid-template-columns:repeat(3,1fr); gap:10px; margin:14px 0; }
  .ccard { background:#faf7f9; border-radius:10px; padding:10px 12px; }
  .ct { font-size:12px; color:var(--mut); margin-bottom:4px; }
  .cb { font-size:14px; font-weight:600; }
  .sign { display:grid; grid-template-columns:1fr 1fr; gap:16px; margin:10px 0; }
  .sign .lbl { display:inline-block; margin-bottom:6px; }
  .emo { background:#faf7f9; border-radius:10px; padding:12px 14px; font-size:13px; margin-top:10px; line-height:1.6; }
  .lg-i { border:none; background:none; cursor:pointer; font-size:12px; font-weight:600; margin-left:10px; }
  .lg-i.me { color:var(--me); } .lg-i.them { color:var(--them); }
  .lg-i.off { opacity:.3; text-decoration:line-through; }
  .bio-me.hide, .bio-them.hide { opacity:0; transition:opacity .2s; }
  body.dark { --card:#241b1d; --ink:#efe7e9; --mut:#9b8c8f; }
  body.dark .ccard, body.dark .emo { background:#2a2022; }
  body.dark .hm-c.lv0 { background:#33292b; }
  .hm { display:flex; gap:6px; overflow-x:auto; padding:4px 0; }
  .hm-wdc { display:grid; grid-template-rows:repeat(7,11px); gap:2px; padding-top:18px; }
  .hm-wd { font-size:9px; color:var(--mut); line-height:11px; }
  .hm-months { display:grid; grid-auto-flow:column; grid-auto-columns:11px; gap:2px; height:14px; margin-bottom:3px; }
  .hm-m { font-size:9px; color:var(--mut); white-space:nowrap; }
  .hm-grid { display:grid; grid-template-rows:repeat(7,11px); grid-auto-flow:column; grid-auto-columns:11px; gap:2px; }
  .hm-c { width:11px; height:11px; border-radius:2px; display:block; }
  .hm-c.lv0 { background:#eee; } .hm-c.lv1 { background:#fcd5dd; } .hm-c.lv2 { background:#f59caf; }
  .hm-c.lv3 { background:#e85d75; } .hm-c.lv4 { background:#c0354f; }
  .hm-leg { font-size:11px; color:var(--mut); margin-top:10px; display:flex; align-items:center; gap:3px; }
  .hm-leg .hm-c { width:11px; height:11px; margin:0 1px; }
  .hm-info { margin-top:10px; font-size:13px; color:var(--mut); background:#faf7f9; border-radius:8px; padding:8px 12px; }
  body.dark .hm-info { background:#2a2022; }
  .tr-toggle { float:right; font-size:13px; font-weight:400; }
  .tr-btn { border:1px solid #e6dfe2; background:var(--card); color:var(--mut); padding:3px 12px; cursor:pointer; border-radius:999px; font-size:12px; margin-left:4px; }
  .tr-btn.active { background:var(--me); color:#fff; border-color:var(--me); }
  .tr-cap { font-size:13px; color:var(--mut); margin-bottom:4px; }
  .topwords { display:grid; grid-template-columns:1fr 1fr; gap:20px; }
  .topwords h3 { margin:0 0 10px; font-size:15px; }
  .chips { display:flex; flex-wrap:wrap; gap:8px; }
  .chip { padding:5px 11px; border-radius:999px; font-size:13px; background:#f1eef2; }
  .chip i { font-style:normal; font-size:11px; opacity:.6; margin-left:4px; }
  .chip.me { background:var(--me-bg); } .chip.them { background:var(--them-bg); }
  .muted { color:var(--mut); font-size:14px; }
"#;

/// Styles of the single page.
pub const DASHBOARD_CSS: &'static str = r#"
  body { background:linear-gradient(180deg,#fff0f3,#f4f7ff); padding:32px 16px 64px; }
  body.dark { background:linear-gradient(180deg,#1f1719,#161a22); }
  .wrap { max-width:1040px; margin:0 auto; }
  header { text-align:center; margin-bottom:8px; position:relative; }
  header h1 { margin:0 0 6px; font-size:26px; }
  header .meta { color:var(--mut); font-size:14px; }
  #theme { position:absolute; top:0; right:0; border:none; background:var(--card); border-radius:999px; width:40px; height:40px; font-size:18px; cursor:pointer; box-shadow:0 2px 10px rgba(0,0,0,.08); }
  #tip { position:fixed; pointer-events:none; background:#3a2b2e; color:#fff; padding:4px 9px; border-radius:6px; font-size:12px; opacity:0; transition:opacity .12s; z-index:99; white-space:nowrap; }
  .pills { display:flex; gap:10px; justify-content:center; margin:14px 0 24px; }
  .pill { background:var(--card); border-radius:999px; padding:8px 16px; font-weight:600; box-shadow:0 2px 10px rgba(0,0,0,.06); font-size:14px; }
  .cards { display:grid; grid-template-columns:repeat(3,1fr); gap:12px; margin:20px 0; }
  .card { background:var(--card); border-radius:16px; padding:16px 14px; text-align:center; box-shadow:0 4px 16px rgba(0,0,0,.06); }
  .card-val { font-size:22px; font-weight:700; }
  .card-label { font-size:13px; color:var(--mut); margin-top:4px; }
  .card-sub { font-size:12px; color:var(--mut); margin-top:2px; }
  footer { text-align:center; color:var(--mut); font-size:12px; margin-top:24px; }
  @media(max-width:560px){ .cards,.cgrid{grid-template-columns:repeat(2,1fr)} .topwords,.dig-row,.types,.sign{grid-template-columns:1fr} }
"#;

/// Styles of the slides.
pub const DECK_CSS: &'static str = r#"
  html,body { height:100%; }
  body { background:linear-gradient(135deg,#fff0f3 0%,#f4f7ff 100%); overflow:hidden; }
  body.dark { background:linear-gradient(135deg,#1f1719,#161a22); }
  .deck { height:100vh; width:100vw; position:relative; overflow:hidden; }
  .track { display:flex; height:100%; transition:transform .55s cubic-bezier(.22,.61,.36,1); will-change:transform; }
  .slide { min-width:100vw; height:100vh; display:flex; flex-direction:column; justify-content:center; align-items:center; padding:7vh 8vw; overflow:auto; text-align:center; }
  .slide h2 { font-size:30px; margin:0 0 26px; }
  .slide section { width:100%; max-width:900px; margin:0 auto; text-align:left; }
  .slide .emoji { font-size:72px; }
  .s-cover h1 { font-size:44px; margin:10px 0 6px; }
  .s-cover .sub { color:var(--mut); font-size:18px; margin:0 0 14px; }
  .s-cover .big { font-size:50px; font-weight:800; color:var(--them); margin:0; }
  .s-cover .hint { color:var(--mut); font-size:13px; margin-top:34px; }
  .s-score { font-size:128px; font-weight:800; color:var(--them); line-height:1; }
  .s-score span { font-size:32px; color:var(--mut); }
  .s-scorelabel { font-size:26px; margin:6px 0 24px; }
  .s-stats { display:flex; gap:24px; flex-wrap:wrap; justify-content:center; }
  .s-stat { background:var(--card); border-radius:18px; padding:22px 30px; text-align:center; box-shadow:0 4px 16px rgba(0,0,0,.06); min-width:150px; }
  .s-stat b { display:block; font-size:40px; color:var(--me); line-height:1.1; }
  .s-stat span { color:var(--mut); font-size:14px; }
  .s-note { color:var(--mut); font-size:16px; margin-top:22px; }
  .slide .bar { max-width:560px; width:100%; }
  .nav { position:fixed; top:50%; transform:translateY(-50%); width:100%; display:flex; justify-content:space-between; padding:0 18px; pointer-events:none; z-index:20; }
  .nav button { pointer-events:auto; border:none; background:var(--card); width:50px; height:50px; border-radius:50%; font-size:26px; cursor:pointer; box-shadow:0 2px 12px rgba(0,0,0,.12); color:var(--ink); }
  .dots { position:fixed; bottom:18px; left:50%; transform:translateX(-50%); display:flex; gap:7px; z-index:20; }
  .dots i { width:8px; height:8px; border-radius:50%; background:#d8c8cc; cursor:pointer; transition:all .3s; }
  .dots i.on { background:var(--them); width:24px; border-radius:4px; }
  .counter { position:fixed; top:20px; right:24px; color:var(--mut); font-size:14px; z-index:20; }
  .progress { position:fixed; top:0; left:0; height:3px; background:var(--them); z-index:21; transition:width .4s; }
  #theme { position:fixed; top:16px; left:22px; border:none; background:var(--card); border-radius:999px; width:40px; height:40px; font-size:18px; cursor:pointer; box-shadow:0 2px 10px rgba(0,0,0,.1); z-index:20; }
"#;

/// The frame of the slides, with the marks `{{CSS}}`, `{{TITLE}}`, `{{SLIDES}}` and `{{DOTS}}`.
pub const SLIDES_SHELL: &'static str = r#"<!DOCTYPE html>
<html lang="zh-CN"><head><meta charset="utf-8">
<meta name="viewport" content="width=device-width,initial-scale=1">
<title>{{TITLE}}</title>
<style>{{CSS}}</style></head>
<body>
<button id="theme" type="button" title="切换深色">🌙</button>
<div class="counter" id="counter"></div>
<div class="progress" id="progress"></div>
<div class="dots" id="dots">{{DOTS}}</div>
<div class="nav"><button id="prev" type="button">‹</button><button id="next" type="button">›</button></div>
<div class="deck" id="deck"><div class="track" id="track">{{SLIDES}}</div></div>
<script>
(function(){
  var tip=document.createElement('div'); tip.id='tip'; tip.style.cssText='position:fixed;pointer-events:none;background:#3a2b2e;color:#fff;padding:4px 9px;border-radius:6px;font-size:12px;opacity:0;transition:opacity .12s;z-index:99;white-space:nowrap;'; document.body.appendChild(tip);
  document.addEventListener('mouseover',function(e){var el=e.target.closest('[data-tip]');if(!el)return;tip.textContent=el.getAttribute('data-tip');tip.style.opacity='1';});
  document.addEventListener('mousemove',function(e){tip.style.left=(e.clientX+14)+'px';tip.style.top=(e.clientY+14)+'px';});
  document.addEventListener('mouseout',function(e){if(e.target.closest('[data-tip]'))tip.style.opacity='0';});
  var t=document.getElementById('theme'); if(t)t.onclick=function(){document.body.classList.toggle('dark');t.textContent=document.body.classList.contains('dark')?'☀️':'🌙';};
  document.querySelectorAll('.lg-i').forEach(function(b){b.onclick=function(){var line=b.getAttribute('data-line');var p=document.querySelector('.bio-'+line);if(p)p.classList.toggle('hide');b.classList.toggle('off');};});
  document.querySelectorAll('.tr-btn').forEach(function(b){b.onclick=function(){document.querySelectorAll('.tr-pane').forEach(function(p){p.style.display='none';});var pane=document.getElementById(b.getAttribute('data-show'));if(pane)pane.style.display='';document.querySelectorAll('.tr-btn').forEach(function(x){x.classList.remove('active');});b.classList.add('active');};});
  var wdNames=['日','一','二','三','四','五','六'];document.querySelectorAll('.hm-c[data-date]').forEach(function(c){c.style.cursor='pointer';c.onclick=function(){var d=c.getAttribute('data-date');var n=parseInt(c.getAttribute('data-count')||'0',10);var dt=new Date(d+'T00:00:00');var wd=isNaN(dt)?'':' 周'+wdNames[dt.getDay()];console.log(d.replace(/-/g,'/')+wd+' · '+n+' 条');};});
  var i=0,N=document.querySelectorAll('.slide').length,track=document.getElementById('track'),counter=document.getElementById('counter'),progress=document.getElementById('progress'),dots=document.querySelectorAll('#dots i');
  function render(){track.style.transform='translateX(-'+i*100+'%)';counter.textContent=(i+1)+' / '+N;progress.style.width=((i+1)/N*100)+'%';dots.forEach(function(d,k){d.classList.toggle('on',k===i);});}
  function go(n){i=Math.max(0,Math.min(N-1,n));render();}
  go(0);
  document.getElementById('prev').onclick=function(){go(i-1);};document.getElementById('next').onclick=function(){go(i+1);};
  dots.forEach(function(d,k){d.onclick=function(){go(k);};});
  document.addEventListener('keydown',function(e){if(['ArrowRight','ArrowDown',' ','PageDown'].indexOf(e.key)>=0){e.preventDefault();go(i+1);}else if(['ArrowLeft','ArrowUp','PageUp'].indexOf(e.key)>=0){e.preventDefault();go(i-1);}else if(e.key==='Home'){go(0);}else if(e.key==='End'){go(N-1);}});
  var lock=false;document.getElementById('deck').addEventListener('wheel',function(e){if(lock)return;lock=true;setTimeout(function(){lock=false;},650);if(e.deltaY>10)go(i+1);else if(e.deltaY<-10)go(i-1);},{passive:true});
  document.getElementById('deck').addEventListener('click',function(e){if(e.target.closest('button,.dots,#theme,.tr-toggle,.lg,.hm-grid,.hm-c,.kw,.cloud,.chip'))return;var x=e.clientX/window.innerWidth;go(x<0.3?i-1:i+1);});
  var sx=0,sy=0;document.getElementById('deck').addEventListener('touchstart',function(e){sx=e.touches[0].clientX;sy=e.touches[0].clientY;},{passive:true});document.getElementById('deck').addEventListener('touchend',function(e){var dx=e.changedTouches[0].clientX-sx,dy=e.changedTouches[0].clientY-sy;if(Math.abs(dx)>50&&Math.abs(dx)>Math.abs(dy))go(dx<0?i+1:i-1);},{passive:true});
})();
</script>
</body></html>"#;

/// The single page, with a mark for each part.
pub const HTML_TEMPLATE: &'static str = r#"<!DOCTYPE html>
<html lang="zh-CN"><head><meta charset="utf-8">
<meta name="viewport" content="width=device-width,initial-scale=1">
<title>{{TITLE}}</title>
<style>
{{CSS}}
</style></head>
<body><div class="wrap">
  <header><button id="theme" type="button" title="切换深色">🌙</button><h1>{{TITLE}}</h1><div class="meta">{{SPAN}}</div></header>
  <div class="pills"><span class="pill">📅 第 {{NTH}} 天</span><span class="pill">💌 {{TOTAL}} 条消息</span></div>
  {{CARDS}}
  <section><h2>📊 发送比例</h2>{{RATIO}}</section>
  <section><h2>⚡ 回复速度</h2>{{REPLY}}</section>
  {{TREND}}
  <section><h2>☁️ 高频词云</h2>{{CLOUD}}</section>
  {{DIG}}
  {{KEYWORDS}}
  {{TOPWORDS}}
  {{CURIOS}}
  <footer>由 wechat-statistics 本地生成 · 全程离线，数据未离开本机</footer>
</div>
<script>
(function(){
  var tip=document.createElement('div'); tip.id='tip'; document.body.appendChild(tip);
  document.addEventListener('mouseover',function(e){
    var el=e.target.closest('[data-tip]'); if(!el){return;}
    tip.textContent=el.getAttribute('data-tip'); tip.style.opacity='1';
  });
  document.addEventListener('mousemove',function(e){
    tip.style.left=(e.clientX+14)+'px'; tip.style.top=(e.clientY+14)+'px';
  });
  document.addEventListener('mouseout',function(e){
    if(e.target.closest('[data-tip]')){tip.style.opacity='0';}
  });
  var t=document.getElementById('theme');
  if(t){t.onclick=function(){document.body.classList.toggle('dark');t.textContent=document.body.classList.contains('dark')?'☀️':'🌙';};}
  document.querySelectorAll('.lg-i').forEach(function(b){
    b.onclick=function(){
      var line=b.getAttribute('data-line');
      var p=document.querySelector('.bio-'+line);
      if(p){p.classList.toggle('hide');}
      b.classList.toggle('off');
    };
  });
  document.querySelectorAll('.tr-btn').forEach(function(b){
    b.onclick=function(){
      document.querySelectorAll('.tr-pane').forEach(function(p){p.style.display='none';});
      var pane=document.getElementById(b.getAttribute('data-show'));
      if(pane){pane.style.display='';}
      document.querySelectorAll('.tr-btn').forEach(function(x){x.classList.remove('active');});
      b.classList.add('active');
    };
  });
  var wdNames=['日','一','二','三','四','五','六'];
  var info=document.getElementById('hm-info');
  document.querySelectorAll('.hm-c[data-date]').forEach(function(c){
    c.style.cursor='pointer';
    c.onclick=function(){
      if(!info){return;}
      var d=c.getAttribute('data-date'); var n=parseInt(c.getAttribute('data-count')||'0',10);
      var dt=new Date(d+'T00:00:00');
      var wd=isNaN(dt)?'':' 周'+wdNames[dt.getDay()];
      var nice=d.replace(/-/g,'/');
      info.innerHTML='📅 <b>'+nice+'</b>'+wd+' · '+(n>0?'<b>'+n+'</b> 条消息':'这天没聊天');
    };
  });
})();
</script>
</body></html>"#;

}
